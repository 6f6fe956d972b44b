use vstd::prelude::*;
use vstd::string::*;

verus! {

/// The view of an optional title.
pub open spec fn opt_view(t: Option<String>) -> Option<Seq<char>> {
    match t {
        Some(s) => Some(s@),
        None => None,
    }
}

/// An org-mode link: the address, then the display text.
pub open spec fn org_link(url: Seq<char>, display: Seq<char>) -> Seq<char> {
    "[["@ + url + "]["@ + display + "]]"@
}

pub struct OrgModeFormatter;

impl OrgModeFormatter {
    /// Formats link in org mode format.
    pub fn link(url: &str, display: &str) -> (r: String)
        ensures
            r@ == org_link(url@, display@),
    {
        let mut out = String::from_str("[[");
        out.append(url);
        out.append("][");
        out.append(display);
        out.append("]]");
        proof {
            assert(out@ =~= org_link(url@, display@));
        }
        out
    }
}

/// What the fallback rendering of a URL is: an org-mode link showing the
/// resolved title, or the URL itself when no title is known.
pub open spec fn default_rendering(url: Seq<char>, title: Option<Seq<char>>) -> Seq<char> {
    match title {
        Some(t) => org_link(url, t),
        None => org_link(url, url),
    }
}

/// The unconditional fallback formatter: it always renders, with the
/// title as display text when one was resolved and the URL otherwise.
pub fn default_formatter(url: &String, maybe_title: &Option<String>) -> (r: String)
    ensures
        r@ == default_rendering(url@, opt_view(*maybe_title)),
{
    match maybe_title {
        Some(t) => OrgModeFormatter::link(url.as_str(), t.as_str()),
        None => OrgModeFormatter::link(url.as_str(), url.as_str()),
    }
}

/// A conditional link formatter: it renders a URL exactly when its
/// condition holds of that URL.
pub trait LinkFormatter {
    /// When this formatter takes a URL.
    spec fn spec_condition(url: Seq<char>) -> bool;

    /// What this formatter renders for a URL and its optional title.
    spec fn spec_format(url: Seq<char>, title: Option<Seq<char>>) -> Seq<char>;

    fn condition(url: &String) -> (r: bool)
        ensures
            r == Self::spec_condition(url@),
    ;

    fn format(url: &String, title: &Option<String>) -> (r: String)
        ensures
            r@ == Self::spec_format(url@, opt_view(*title)),
    ;

    fn apply(url: &String, title: &Option<String>) -> (r: Option<String>)
        ensures
            Self::spec_condition(url@) ==> (r matches Some(s) && s@ == Self::spec_format(
                url@,
                opt_view(*title),
            )),
            !Self::spec_condition(url@) ==> r is None,
    {
        if Self::condition(url) {
            Some(Self::format(url, title))
        } else {
            None
        }
    }
}

/// Every formatter of the chain, and the default, accepts this URL and
/// title.
pub open spec fn chain_callable<F, G>(
    fs: Seq<F>,
    d: G,
    url: String,
    title: Option<String>,
) -> bool where
    F: Fn(&String, &Option<String>) -> Option<String>,
    G: Fn(&String, &Option<String>) -> String,
 {
    &&& forall|j: int| 0 <= j < fs.len() ==> call_requires(#[trigger] fs[j], (&url, &title))
    &&& call_requires(d, (&url, &title))
}

/// The first `i` formatters of the chain all declined this URL.
pub open spec fn chain_stops_at<F>(fs: Seq<F>, url: String, title: Option<String>, i: int) -> bool where
    F: Fn(&String, &Option<String>) -> Option<String>,
 {
    forall|j: int| 0 <= j < i ==> call_ensures(#[trigger] fs[j], (&url, &title), None::<String>)
}

/// `r` is what the chain renders: the output of the first formatter that
/// takes the URL, or of the default when every formatter declines.
pub open spec fn chain_post<F, G>(
    fs: Seq<F>,
    d: G,
    url: String,
    title: Option<String>,
    r: String,
) -> bool where
    F: Fn(&String, &Option<String>) -> Option<String>,
    G: Fn(&String, &Option<String>) -> String,
 {
    exists|i: int|
        {
            &&& 0 <= i <= fs.len()
            &&& #[trigger] chain_stops_at(fs, url, title, i)
            &&& if i < fs.len() {
                call_ensures(fs[i], (&url, &title), Some(r))
            } else {
                call_ensures(d, (&url, &title), r)
            }
        }
}

/// Runs the formatter chain on one URL: the first formatter whose
/// predicate takes the URL renders it and the rest are never consulted;
/// when all decline, the default renders it.
pub fn apply_chain<F, G>(
    url: &String,
    maybe_title: &Option<String>,
    formatters: &Vec<F>,
    default_formatter: &G,
) -> (r: String) where
    F: Fn(&String, &Option<String>) -> Option<String>,
    G: Fn(&String, &Option<String>) -> String,

    requires
        chain_callable(formatters@, *default_formatter, *url, *maybe_title),
    ensures
        chain_post(formatters@, *default_formatter, *url, *maybe_title, r),
{
    let mut j: usize = 0;
    while j < formatters.len()
        invariant
            j <= formatters@.len(),
            chain_callable(formatters@, *default_formatter, *url, *maybe_title),
            chain_stops_at(formatters@, *url, *maybe_title, j as int),
        decreases formatters@.len() - j,
    {
        let f = &formatters[j];
        match f(url, maybe_title) {
            Some(rendered) => {
                proof {
                    assert(chain_stops_at(formatters@, *url, *maybe_title, j as int));
                }
                return rendered;
            },
            None => {},
        }
        j = j + 1;
    }
    let r = (default_formatter)(url, maybe_title);
    proof {
        assert(chain_stops_at(formatters@, *url, *maybe_title, formatters@.len() as int));
    }
    r
}

/// The chain short-circuits: when the first formatter always renders a
/// URL as `x`, the chain renders `x`, whatever any later formatter would
/// have said.
pub proof fn lemma_chain_short_circuits<F, G>(
    fs: Seq<F>,
    d: G,
    url: String,
    title: Option<String>,
    r: String,
    x: String,
) where
    F: Fn(&String, &Option<String>) -> Option<String>,
    G: Fn(&String, &Option<String>) -> String,

    requires
        chain_post(fs, d, url, title, r),
        fs.len() >= 1,
        forall|out: Option<String>| call_ensures(fs[0], (&url, &title), out) ==> out == Some(x),
    ensures
        r == x,
{
    let i = choose|i: int|
        {
            &&& 0 <= i <= fs.len()
            &&& #[trigger] chain_stops_at(fs, url, title, i)
            &&& if i < fs.len() {
                call_ensures(fs[i], (&url, &title), Some(r))
            } else {
                call_ensures(d, (&url, &title), r)
            }
        };
    if i == 0 {
        assert(Some(r) == Some(x));
    } else {
        assert(call_ensures(fs[0], (&url, &title), None::<String>));
    }
}

/// When no formatter of the chain ever takes this URL, the chain renders
/// what the default formatter renders.
pub proof fn lemma_default_when_no_match<F, G>(
    fs: Seq<F>,
    d: G,
    url: String,
    title: Option<String>,
    r: String,
) where
    F: Fn(&String, &Option<String>) -> Option<String>,
    G: Fn(&String, &Option<String>) -> String,

    requires
        chain_post(fs, d, url, title, r),
        forall|j: int, out: Option<String>|
            0 <= j < fs.len() && #[trigger] call_ensures(fs[j], (&url, &title), out) ==> out
                is None,
    ensures
        call_ensures(d, (&url, &title), r),
{
    let i = choose|i: int|
        {
            &&& 0 <= i <= fs.len()
            &&& #[trigger] chain_stops_at(fs, url, title, i)
            &&& if i < fs.len() {
                call_ensures(fs[i], (&url, &title), Some(r))
            } else {
                call_ensures(d, (&url, &title), r)
            }
        };
    if i < fs.len() {
        assert(call_ensures(fs[i], (&url, &title), Some(r)));
    }
}

} // verus!
