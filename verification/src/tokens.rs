use vstd::prelude::*;

verus! {

/// A whitespace character: the Unicode `White_Space` set, which is what
/// splitting text into whitespace-delimited tokens goes by.
pub open spec fn is_space(c: char) -> bool {
    ||| c == ' '
    ||| c == '\t'
    ||| c == '\n'
    ||| c == '\u{000B}'
    ||| c == '\u{000C}'
    ||| c == '\r'
    ||| c == '\u{0085}'
    ||| c == '\u{00A0}'
    ||| c == '\u{1680}'
    ||| c == '\u{2000}'
    ||| c == '\u{2001}'
    ||| c == '\u{2002}'
    ||| c == '\u{2003}'
    ||| c == '\u{2004}'
    ||| c == '\u{2005}'
    ||| c == '\u{2006}'
    ||| c == '\u{2007}'
    ||| c == '\u{2008}'
    ||| c == '\u{2009}'
    ||| c == '\u{200A}'
    ||| c == '\u{2028}'
    ||| c == '\u{2029}'
    ||| c == '\u{202F}'
    ||| c == '\u{205F}'
    ||| c == '\u{3000}'
}

pub fn is_space_char(c: char) -> (r: bool)
    ensures
        r == is_space(c),
{
    c == ' ' || c == '\t' || c == '\n' || c == '\u{000B}' || c == '\u{000C}' || c == '\r'
        || c == '\u{0085}' || c == '\u{00A0}' || c == '\u{1680}' || c == '\u{2000}'
        || c == '\u{2001}' || c == '\u{2002}' || c == '\u{2003}' || c == '\u{2004}'
        || c == '\u{2005}' || c == '\u{2006}' || c == '\u{2007}' || c == '\u{2008}'
        || c == '\u{2009}' || c == '\u{200A}' || c == '\u{2028}' || c == '\u{2029}'
        || c == '\u{202F}' || c == '\u{205F}' || c == '\u{3000}'
}

/// The whitespace-delimited tokens of `s`, with `cur` the partial token
/// read so far.
pub open spec fn tokens_acc(s: Seq<char>, cur: Seq<char>) -> Seq<Seq<char>>
    decreases s.len(),
{
    if s.len() == 0 {
        if cur.len() == 0 {
            Seq::empty()
        } else {
            seq![cur]
        }
    } else if is_space(s[0]) {
        (if cur.len() == 0 {
            Seq::empty()
        } else {
            seq![cur]
        }) + tokens_acc(s.skip(1), Seq::empty())
    } else {
        tokens_acc(s.skip(1), cur.push(s[0]))
    }
}

/// The whitespace-delimited tokens of `s`, in order.
pub open spec fn tokens_of(s: Seq<char>) -> Seq<Seq<char>> {
    tokens_acc(s, Seq::empty())
}

/// Every token is nonempty.
pub proof fn lemma_tokens_nonempty(s: Seq<char>, cur: Seq<char>)
    ensures
        forall|k: int| 0 <= k < tokens_acc(s, cur).len() ==> tokens_acc(s, cur)[k].len() > 0,
    decreases s.len(),
{
    if s.len() == 0 {
        if cur.len() > 0 {
            assert(tokens_acc(s, cur) == seq![cur]);
            assert(tokens_acc(s, cur)[0] == cur);
        }
    } else if is_space(s[0]) {
        lemma_tokens_nonempty(s.skip(1), Seq::empty());
        let emit = if cur.len() == 0 {
            Seq::<Seq<char>>::empty()
        } else {
            seq![cur]
        };
        let rest = tokens_acc(s.skip(1), Seq::empty());
        assert forall|k: int| 0 <= k < tokens_acc(s, cur).len() implies tokens_acc(s, cur)[k].len()
            > 0 by {
            assert(tokens_acc(s, cur) == emit + rest);
            if k < emit.len() {
                assert(tokens_acc(s, cur)[k] == cur);
            } else {
                assert(tokens_acc(s, cur)[k] == rest[k - emit.len()]);
            }
        }
    } else {
        lemma_tokens_nonempty(s.skip(1), cur.push(s[0]));
        assert forall|k: int| 0 <= k < tokens_acc(s, cur).len() implies tokens_acc(s, cur)[k].len()
            > 0 by {
            assert(tokens_acc(s, cur) == tokens_acc(s.skip(1), cur.push(s[0])));
            assert(tokens_acc(s, cur)[k] == tokens_acc(s.skip(1), cur.push(s[0]))[k]);
        }
    }
}

/// Reading a maximal nonempty run of `l` non-space characters emits one
/// token and leaves the rest of the split unchanged.
pub proof fn lemma_tokens_acc_run(u: Seq<char>, cur: Seq<char>, l: int)
    requires
        0 <= l <= u.len(),
        cur.len() + l > 0,
        forall|m: int| 0 <= m < l ==> !is_space(u[m]),
        l == u.len() || is_space(u[l]),
    ensures
        tokens_acc(u, cur) == seq![cur + u.take(l)] + tokens_acc(u.skip(l), Seq::empty()),
    decreases l,
{
    if l == 0 {
        assert(cur + u.take(0) =~= cur);
        assert(u.skip(0) =~= u);
        if u.len() == 0 {
            assert(tokens_acc(u, cur) =~= seq![cur] + tokens_acc(u, Seq::empty()));
        } else {
            assert(is_space(u[0]));
        }
    } else {
        let cur2 = cur.push(u[0]);
        lemma_tokens_acc_run(u.skip(1), cur2, l - 1);
        assert(u.skip(1).skip(l - 1) =~= u.skip(l));
        assert(cur2 + u.skip(1).take(l - 1) =~= cur + u.take(l));
    }
}

} // verus!
