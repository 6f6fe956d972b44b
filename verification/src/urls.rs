use vstd::prelude::*;
use vstd::string::*;

use crate::tokens::{
    is_space, is_space_char, lemma_tokens_acc_run, lemma_tokens_nonempty, tokens_acc, tokens_of,
};

verus! {

/// The scheme under which a token parses as an absolute URL, if it does;
/// it depends on the token's characters alone.
pub uninterp spec fn parse_scheme(s: Seq<char>) -> Option<Seq<char>>;

/// Relies on `url::Url::parse`: a token either parses as an absolute URL
/// with some scheme or is rejected, and the outcome is a function of the
/// token's characters alone.
#[verifier::external_body]
fn scheme_of(token: &str) -> (r: Option<String>)
    ensures
        r is Some <==> parse_scheme(token@) is Some,
        r matches Some(s) ==> parse_scheme(token@) == Some(s@),
{
    match url::Url::parse(token) {
        Ok(u) => Some(u.scheme().to_string()),
        Err(_) => None,
    }
}

/// A token counts as a web URL when it parses as an absolute URL whose
/// scheme is exactly `http` or `https`.
pub open spec fn is_web_url(s: Seq<char>) -> bool {
    parse_scheme(s) == Some("http"@) || parse_scheme(s) == Some("https"@)
}

/// Decides whether one whitespace-delimited token is an absolute
/// http/https URL.
pub fn is_web_token(token: &str) -> (r: bool)
    ensures
        r == is_web_url(token@),
{
    match scheme_of(token) {
        Some(s) => {
            let http = String::from_str("http");
            let https = String::from_str("https");
            s.eq(&http) || s.eq(&https)
        },
        None => false,
    }
}

fn contains_string(v: &Vec<String>, s: &String) -> (r: bool)
    ensures
        r == exists|k: int| 0 <= k < v@.len() && v@[k]@ == s@,
{
    let mut k: usize = 0;
    while k < v.len()
        invariant
            k <= v@.len(),
            forall|m: int| 0 <= m < k ==> v@[m]@ != s@,
        decreases v@.len() - k,
    {
        if v[k].eq(s) {
            return true;
        }
        k = k + 1;
    }
    false
}

/// `urls` lists, each exactly once, the whitespace-delimited tokens of
/// `text` that are absolute http/https URLs.
pub open spec fn is_distinct_web_list(text: Seq<char>, urls: Seq<String>) -> bool {
    &&& forall|k: int|
        0 <= k < urls.len() ==> tokens_of(text).contains(#[trigger] urls[k]@) && is_web_url(
            urls[k]@,
        )
    &&& forall|t: Seq<char>|
        #[trigger] tokens_of(text).contains(t) && is_web_url(t) ==> exists|k: int|
            0 <= k < urls.len() && #[trigger] urls[k]@ == t
    &&& forall|k1: int, k2: int| 0 <= k1 < k2 < urls.len() ==> urls[k1]@ != urls[k2]@
}

/// The set of URLs that a list holds, without order or repetition.
pub open spec fn url_set(urls: Seq<String>) -> Set<Seq<char>> {
    Set::new(|t: Seq<char>| exists|k: int| 0 <= k < urls.len() && #[trigger] urls[k]@ == t)
}

/// Extraction yields a set: any two lists of distinct web tokens of the
/// same text hold exactly the same URLs, so extracting twice from one
/// text gives one set.
pub proof fn lemma_extraction_is_a_set(text: Seq<char>, r1: Seq<String>, r2: Seq<String>)
    requires
        is_distinct_web_list(text, r1),
        is_distinct_web_list(text, r2),
    ensures
        url_set(r1) == url_set(r2),
{
    assert forall|t: Seq<char>| url_set(r1).contains(t) implies url_set(r2).contains(t) by {
        let k = choose|k: int| 0 <= k < r1.len() && #[trigger] r1[k]@ == t;
        assert(tokens_of(text).contains(t) && is_web_url(t));
    }
    assert forall|t: Seq<char>| url_set(r2).contains(t) implies url_set(r1).contains(t) by {
        let k = choose|k: int| 0 <= k < r2.len() && #[trigger] r2[k]@ == t;
        assert(tokens_of(text).contains(t) && is_web_url(t));
    }
    assert(url_set(r1) =~= url_set(r2));
}

pub struct Url;

impl Url {
    /// Collects all the distinct whitespace-delimited http/https URL
    /// tokens of `text`, each kept verbatim as it appeared.
    pub fn collect(text: &str) -> (urls: Vec<String>)
        ensures
            is_distinct_web_list(text@, urls@),
            forall|k: int| 0 <= k < urls@.len() ==> (#[trigger] urls@[k]@).len() > 0,
    {
        let n = text.unicode_len();
        let mut urls: Vec<String> = Vec::new();
        let mut i: usize = 0;
        let ghost mut done: Seq<Seq<char>> = Seq::empty();
        proof {
            assert(text@.skip(0) =~= text@);
        }
        while i < n
            invariant
                i <= n,
                n == text@.len(),
                tokens_of(text@) == done + tokens_of(text@.skip(i as int)),
                forall|k: int|
                    0 <= k < urls@.len() ==> done.contains(#[trigger] urls@[k]@) && is_web_url(
                        urls@[k]@,
                    ),
                forall|t: Seq<char>|
                    #[trigger] done.contains(t) && is_web_url(t) ==> exists|k: int|
                        0 <= k < urls@.len() && #[trigger] urls@[k]@ == t,
                forall|k1: int, k2: int| 0 <= k1 < k2 < urls@.len() ==> urls@[k1]@ != urls@[k2]@,
            decreases n - i,
        {
            let c = text.get_char(i);
            if is_space_char(c) {
                proof {
                    assert(text@.skip(i as int).skip(1) =~= text@.skip(i + 1));
                }
                i = i + 1;
            } else {
                let mut j: usize = i + 1;
                while j < n
                    invariant
                        i < j <= n,
                        n == text@.len(),
                        forall|m: int| i <= m < j ==> !is_space(text@[m]),
                    ensures
                        i < j <= n,
                        forall|m: int| i <= m < j ==> !is_space(text@[m]),
                        j == n || is_space(text@[j as int]),
                    decreases n - j,
                {
                    if is_space_char(text.get_char(j)) {
                        break ;
                    }
                    j = j + 1;
                }
                let token = text.substring_char(i, j).to_owned();
                let ghost u = text@.skip(i as int);
                let ghost done0 = done;
                proof {
                    let l = j - i;
                    assert forall|m: int| 0 <= m < l implies !is_space(u[m]) by {
                        assert(u[m] == text@[i + m]);
                    }
                    if l < u.len() {
                        assert(u[l] == text@[j as int]);
                    }
                    lemma_tokens_acc_run(u, Seq::empty(), l);
                    assert(Seq::<char>::empty() + u.take(l) =~= token@);
                    assert(u.skip(l) =~= text@.skip(j as int));
                    assert(done0 + tokens_acc(u, Seq::empty()) =~= done0.push(token@)
                        + tokens_of(text@.skip(j as int)));
                    done = done0.push(token@);
                }
                let ghost urls0 = urls@;
                let is_web = is_web_token(token.as_str());
                if is_web {
                    if !contains_string(&urls, &token) {
                        urls.push(token);
                    }
                }
                proof {
                    assert forall|k: int| 0 <= k < urls@.len() implies done.contains(
                        #[trigger] urls@[k]@,
                    ) && is_web_url(urls@[k]@) by {
                        if done0.contains(urls@[k]@) {
                            let m = choose|m: int| 0 <= m < done0.len() && done0[m] == urls@[k]@;
                            assert(done[m] == urls@[k]@);
                        } else {
                            assert(urls@[k]@ == token@);
                            assert(done.last() == token@);
                        }
                    }
                    assert forall|t: Seq<char>|
                        #[trigger] done.contains(t) && is_web_url(t) implies exists|k: int|
                        0 <= k < urls@.len() && #[trigger] urls@[k]@ == t by {
                        let ki = choose|ki: int| 0 <= ki < done.len() && done[ki] == t;
                        if ki < done0.len() {
                            assert(done0[ki] == t);
                            assert(done0.contains(t));
                            let kk = choose|kk: int| 0 <= kk < urls0.len() && urls0[kk]@ == t;
                            assert(urls@[kk]@ == t);
                        } else {
                            assert(t == token@);
                            assert(is_web);
                            if urls@.len() > urls0.len() {
                                assert(urls@[urls0.len() as int]@ == t);
                            } else {
                                let kk = choose|kk: int|
                                    0 <= kk < urls0.len() && urls0[kk]@ == token@;
                                assert(urls@[kk]@ == t);
                            }
                        }
                    }
                }
                i = j;
            }
        }
        proof {
            assert(text@.skip(n as int) =~= Seq::<char>::empty());
            assert(tokens_of(text@) =~= done);
            lemma_tokens_nonempty(text@, Seq::empty());
            assert forall|k: int| 0 <= k < urls@.len() implies (#[trigger] urls@[k]@).len()
                > 0 by {
                let i = choose|i: int| 0 <= i < done.len() && done[i] == urls@[k]@;
                assert(tokens_of(text@)[i].len() > 0);
            }
        }
        urls
    }
}

} // verus!
