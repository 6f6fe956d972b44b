use vstd::prelude::*;
use vstd::string::*;

use crate::chain::{apply_chain, chain_callable, chain_post};
use crate::replace::{chars_disjoint, count_occ, has_occ, replace, replace_seq};
use crate::tokens::tokens_of;
use crate::urls::{is_distinct_web_list, is_web_url, Url};

verus! {

/// Replaces, pair after pair, every occurrence of each pattern by its
/// rendering.
pub open spec fn substitute_all(text: Seq<char>, pairs: Seq<(Seq<char>, Seq<char>)>) -> Seq<char>
    decreases pairs.len(),
{
    if pairs.len() == 0 {
        text
    } else {
        substitute_all(replace_seq(text, pairs[0].0, pairs[0].1), pairs.skip(1))
    }
}

/// The URL of each resolved entry, paired with its rendering.
pub open spec fn rendered_pairs(resolved: Seq<(String, Option<String>)>, rs: Seq<String>) -> Seq<
    (Seq<char>, Seq<char>),
> {
    Seq::new(resolved.len(), |k: int| (resolved[k].0@, rs[k]@))
}

/// The enriched text: each resolved URL was rendered by the chain, and
/// every occurrence of each URL in the text was replaced, URL after URL,
/// by that rendering.
pub open spec fn enriched_with<F, G>(
    text: Seq<char>,
    fs: Seq<F>,
    d: G,
    resolved: Seq<(String, Option<String>)>,
    rs: Seq<String>,
    out: Seq<char>,
) -> bool where
    F: Fn(&String, &Option<String>) -> Option<String>,
    G: Fn(&String, &Option<String>) -> String,
 {
    &&& rs.len() == resolved.len()
    &&& forall|k: int|
        0 <= k < resolved.len() ==> chain_post(
            fs,
            d,
            (#[trigger] resolved[k]).0,
            resolved[k].1,
            rs[k],
        )
    &&& out == substitute_all(text, rendered_pairs(resolved, rs))
}

proof fn lemma_substitute_all_push(
    text: Seq<char>,
    pairs: Seq<(Seq<char>, Seq<char>)>,
    pr: (Seq<char>, Seq<char>),
)
    ensures
        substitute_all(text, pairs.push(pr)) == replace_seq(
            substitute_all(text, pairs),
            pr.0,
            pr.1,
        ),
    decreases pairs.len(),
{
    if pairs.len() == 0 {
        assert(pairs.push(pr)[0] == pr);
        assert(pairs.push(pr).skip(1) =~= Seq::<(Seq<char>, Seq<char>)>::empty());
        assert(substitute_all(text, pairs.push(pr)) == substitute_all(
            replace_seq(text, pr.0, pr.1),
            Seq::<(Seq<char>, Seq<char>)>::empty(),
        ));
        assert(substitute_all(replace_seq(text, pr.0, pr.1), Seq::<(Seq<char>, Seq<char>)>::empty())
            == replace_seq(text, pr.0, pr.1));
    } else {
        assert(pairs.push(pr)[0] == pairs[0]);
        assert(pairs.push(pr).skip(1) =~= pairs.skip(1).push(pr));
        lemma_substitute_all_push(replace_seq(text, pairs[0].0, pairs[0].1), pairs.skip(1), pr);
        assert(substitute_all(text, pairs.push(pr)) == substitute_all(
            replace_seq(text, pairs[0].0, pairs[0].1),
            pairs.skip(1).push(pr),
        ));
        assert(substitute_all(text, pairs) == substitute_all(
            replace_seq(text, pairs[0].0, pairs[0].1),
            pairs.skip(1),
        ));
    }
}

/// Pairs each URL with what the resolver returned for it.
pub open spec fn resolved_of(urls: Seq<String>, titles: Seq<Option<String>>) -> Seq<
    (String, Option<String>),
> {
    Seq::new(urls.len(), |k: int| (urls[k], titles[k]))
}

impl Url {
    /// Replaces all the URLs in `text` with the first not-`None` result
    /// of the formatters (applied in order), or with what
    /// `default_formatter` renders if all of the formatters returned
    /// `None`. The titles come resolved from the caller, one entry per
    /// URL to rewrite.
    pub fn apply_all_formatters<F, G>(
        text: &str,
        formatters: &Vec<F>,
        default_formatter: &G,
        resolved: &Vec<(String, Option<String>)>,
    ) -> (r: String) where
        F: Fn(&String, &Option<String>) -> Option<String>,
        G: Fn(&String, &Option<String>) -> String,

        requires
            forall|k: int| 0 <= k < resolved@.len() ==> (#[trigger] resolved@[k]).0@.len() > 0,
            forall|k: int|
                0 <= k < resolved@.len() ==> chain_callable(
                    formatters@,
                    *default_formatter,
                    (#[trigger] resolved@[k]).0,
                    resolved@[k].1,
                ),
        ensures
            exists|rs: Seq<String>|
                #[trigger] enriched_with(
                    text@,
                    formatters@,
                    *default_formatter,
                    resolved@,
                    rs,
                    r@,
                ),
    {
        let mut cur = text.to_owned();
        let ghost mut rs_done: Seq<String> = Seq::empty();
        let mut k: usize = 0;
        proof {
            assert(rendered_pairs(resolved@.take(0), rs_done) =~= Seq::<(
                Seq<char>,
                Seq<char>,
            )>::empty());
        }
        while k < resolved.len()
            invariant
                k <= resolved@.len(),
                rs_done.len() == k,
                forall|m: int| 0 <= m < resolved@.len() ==> (#[trigger] resolved@[m]).0@.len() > 0,
                forall|m: int|
                    0 <= m < resolved@.len() ==> chain_callable(
                        formatters@,
                        *default_formatter,
                        (#[trigger] resolved@[m]).0,
                        resolved@[m].1,
                    ),
                forall|m: int|
                    0 <= m < k ==> chain_post(
                        formatters@,
                        *default_formatter,
                        (#[trigger] resolved@[m]).0,
                        resolved@[m].1,
                        rs_done[m],
                    ),
                cur@ == substitute_all(text@, rendered_pairs(resolved@.take(k as int), rs_done)),
            decreases resolved@.len() - k,
        {
            let url = &resolved[k].0;
            let title = &resolved[k].1;
            let rendered = apply_chain(url, title, formatters, default_formatter);
            let next = replace(cur.as_str(), url.as_str(), rendered.as_str());
            proof {
                let ghost rs0 = rs_done;
                rs_done = rs_done.push(rendered);
                lemma_substitute_all_push(
                    text@,
                    rendered_pairs(resolved@.take(k as int), rs0),
                    (url@, rendered@),
                );
                assert(rendered_pairs(resolved@.take(k + 1), rs_done) =~= rendered_pairs(
                    resolved@.take(k as int),
                    rs0,
                ).push((url@, rendered@)));
            }
            cur = next;
            k = k + 1;
        }
        proof {
            assert(resolved@.take(resolved@.len() as int) =~= resolved@);
            assert(enriched_with(
                text@,
                formatters@,
                *default_formatter,
                resolved@,
                rs_done,
                cur@,
            ));
        }
        cur
    }

    /// The whole enrichment of one text: collects its distinct
    /// http/https URL tokens, asks the resolver once for each URL's
    /// title, renders each URL through the formatter chain, and replaces
    /// every occurrence of each URL by its rendering.
    pub fn enrich<F, G, H>(
        text: &str,
        formatters: &Vec<F>,
        default_formatter: &G,
        resolver: &H,
    ) -> (r: String) where
        F: Fn(&String, &Option<String>) -> Option<String>,
        G: Fn(&String, &Option<String>) -> String,
        H: Fn(&String) -> Option<String>,

        requires
            forall|u: String| #[trigger] call_requires(*resolver, (&u,)),
            forall|u: String, t: Option<String>|
                #[trigger] chain_callable(formatters@, *default_formatter, u, t),
        ensures
            exists|urls: Seq<String>, titles: Seq<Option<String>>, rs: Seq<String>|
                {
                    &&& is_distinct_web_list(text@, urls)
                    &&& titles.len() == urls.len()
                    &&& forall|k: int|
                        0 <= k < urls.len() ==> call_ensures(
                            *resolver,
                            (&(#[trigger] urls[k]),),
                            titles[k],
                        )
                    &&& #[trigger] enriched_with(
                        text@,
                        formatters@,
                        *default_formatter,
                        resolved_of(urls, titles),
                        rs,
                        r@,
                    )
                },
    {
        let urls = Url::collect(text);
        let mut resolved: Vec<(String, Option<String>)> = Vec::new();
        let mut k: usize = 0;
        while k < urls.len()
            invariant
                k <= urls@.len(),
                resolved@.len() == k,
                forall|u: String| #[trigger] call_requires(*resolver, (&u,)),
                forall|m: int| 0 <= m < k ==> (#[trigger] resolved@[m]).0 == urls@[m],
                forall|m: int|
                    0 <= m < k ==> call_ensures(
                        *resolver,
                        (&(#[trigger] resolved@[m]).0,),
                        resolved@[m].1,
                    ),
            decreases urls@.len() - k,
        {
            let u = urls[k].clone();
            let t = (resolver)(&u);
            resolved.push((u, t));
            k = k + 1;
        }
        let r = Url::apply_all_formatters(text, formatters, default_formatter, &resolved);
        proof {
            let titles = Seq::new(resolved@.len(), |m: int| resolved@[m].1);
            assert(resolved_of(urls@, titles) =~= resolved@);
            let rs = choose|rs: Seq<String>|
                #[trigger] enriched_with(
                    text@,
                    formatters@,
                    *default_formatter,
                    resolved@,
                    rs,
                    r@,
                );
            assert(is_distinct_web_list(text@, urls@) && titles.len() == urls@.len() && (forall|
                kk: int,
            |
                0 <= kk < urls@.len() ==> call_ensures(
                    *resolver,
                    (&(#[trigger] urls@[kk]),),
                    titles[kk],
                )) && enriched_with(
                text@,
                formatters@,
                *default_formatter,
                resolved_of(urls@, titles),
                rs,
                r@,
            ));
        }
        r
    }
}

/// Substituting a URL's rendering touches every occurrence: when the
/// rendering is made of characters that are fresh to the text, the
/// result holds exactly one copy of the rendering per occurrence of the
/// URL, and no occurrence of the raw URL is left.
pub proof fn lemma_substitution_covers_every_occurrence(
    text: Seq<char>,
    url: Seq<char>,
    rendering: Seq<char>,
)
    requires
        url.len() > 0,
        rendering.len() > 0,
        chars_disjoint(text, rendering),
    ensures
        count_occ(substitute_all(text, seq![(url, rendering)]), rendering) == count_occ(text, url),
        !has_occ(substitute_all(text, seq![(url, rendering)]), url),
{
    crate::replace::lemma_replace_count(text, url, rendering);
    crate::replace::lemma_replace_removes_pattern(text, url, rendering);
    assert(seq![(url, rendering)].skip(1) =~= Seq::<(Seq<char>, Seq<char>)>::empty());
    assert(substitute_all(text, seq![(url, rendering)]) == substitute_all(
        replace_seq(text, url, rendering),
        Seq::<(Seq<char>, Seq<char>)>::empty(),
    ));
}

/// When no whitespace-delimited token of the text is an absolute
/// http/https URL, there is nothing to resolve, and enrichment leaves
/// the text as it was.
pub proof fn lemma_enrich_identity(
    text: Seq<char>,
    resolved: Seq<(String, Option<String>)>,
    rs: Seq<String>,
)
    requires
        forall|t: Seq<char>| #[trigger] tokens_of(text).contains(t) ==> !is_web_url(t),
        forall|k: int|
            0 <= k < resolved.len() ==> tokens_of(text).contains((#[trigger] resolved[k]).0@)
                && is_web_url(resolved[k].0@),
    ensures
        substitute_all(text, rendered_pairs(resolved, rs)) == text,
{
    if resolved.len() > 0 {
        assert(is_web_url(resolved[0].0@));
        assert(false);
    }
    assert(rendered_pairs(resolved, rs) =~= Seq::<(Seq<char>, Seq<char>)>::empty());
}

} // verus!
