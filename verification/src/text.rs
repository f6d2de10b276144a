//! Verified character-level string utilities: equality, prefix tests,
//! trimming and separator splitting, used by the theme index parser and the
//! search path builder.

use vstd::prelude::*;
use vstd::string::*;

verus! {

/// Whitespace stripped by [`trim_str`].
pub open spec fn is_space(c: char) -> bool {
    c == ' ' || c == '\t' || c == '\r'
}

/// `s` with leading whitespace removed.
pub open spec fn trim_front(s: Seq<char>) -> Seq<char>
    decreases s.len(),
{
    if s.len() > 0 && is_space(s[0]) {
        trim_front(s.drop_first())
    } else {
        s
    }
}

/// `s` with trailing whitespace removed.
pub open spec fn trim_back(s: Seq<char>) -> Seq<char>
    decreases s.len(),
{
    if s.len() > 0 && is_space(s.last()) {
        trim_back(s.drop_last())
    } else {
        s
    }
}

/// `s` with both leading and trailing whitespace removed.
pub open spec fn trimmed(s: Seq<char>) -> Seq<char> {
    trim_back(trim_front(s))
}

/// `p` occurs at the start of `s`.
pub open spec fn is_prefix(p: Seq<char>, s: Seq<char>) -> bool {
    p.len() <= s.len() && s.subrange(0, p.len() as int) == p
}

/// `s` split at every separator occurrence, with `cur` the segment gathered
/// so far; the definitional core of [`split_on`].
pub open spec fn split_from(s: Seq<char>, seps: Seq<char>, cur: Seq<char>) -> Seq<Seq<char>>
    decreases s.len(),
{
    if s.len() == 0 {
        seq![cur]
    } else if seps.contains(s[0]) {
        seq![cur] + split_from(s.drop_first(), seps, Seq::empty())
    } else {
        split_from(s.drop_first(), seps, cur.push(s[0]))
    }
}

/// `s` split on the separator characters in `seps`. Separators are not kept;
/// adjacent separators yield empty segments; the result is never empty.
pub open spec fn split_on(s: Seq<char>, seps: Seq<char>) -> Seq<Seq<char>> {
    split_from(s, seps, Seq::empty())
}

/// Character-by-character string equality.
pub fn str_eq(a: &str, b: &str) -> (r: bool)
    ensures
        r == (a@ == b@),
{
    let la = a.unicode_len();
    let lb = b.unicode_len();
    if la != lb {
        return false;
    }
    let mut i: usize = 0;
    while i < la
        invariant
            la == a@.len(),
            la == b@.len(),
            i <= la,
            forall|j: int| 0 <= j < i ==> a@[j] == b@[j],
        decreases la - i,
    {
        if a.get_char(i) != b.get_char(i) {
            return false;
        }
        i += 1;
    }
    proof {
        assert(a@ =~= b@);
    }
    true
}

/// Does `s` start with `p`?
pub fn has_prefix(s: &str, p: &str) -> (r: bool)
    ensures
        r == is_prefix(p@, s@),
{
    let ls = s.unicode_len();
    let lp = p.unicode_len();
    if lp > ls {
        return false;
    }
    let mut i: usize = 0;
    while i < lp
        invariant
            ls == s@.len(),
            lp == p@.len(),
            lp <= ls,
            i <= lp,
            forall|j: int| 0 <= j < i ==> s@[j] == p@[j],
        decreases lp - i,
    {
        if s.get_char(i) != p.get_char(i) {
            return false;
        }
        i += 1;
    }
    proof {
        assert(s@.subrange(0, p@.len() as int) =~= p@);
    }
    true
}

fn space_char(c: char) -> (r: bool)
    ensures
        r == is_space(c),
{
    c == ' ' || c == '\t' || c == '\r'
}

/// A copy of `s` with leading and trailing whitespace removed.
pub fn trim_str(s: &str) -> (r: String)
    ensures
        r@ == trimmed(s@),
{
    let n = s.unicode_len();
    let mut lo: usize = 0;
    proof {
        assert(s@.skip(0) =~= s@);
    }
    while lo < n && space_char(s.get_char(lo))
        invariant
            n == s@.len(),
            lo <= n,
            trim_front(s@) == trim_front(s@.skip(lo as int)),
        decreases n - lo,
    {
        proof {
            assert(s@.skip(lo as int).drop_first() =~= s@.skip(lo as int + 1));
        }
        lo += 1;
    }
    proof {
        if lo < n {
            assert(trim_front(s@.skip(lo as int)) == s@.skip(lo as int));
        } else {
            assert(s@.skip(lo as int) =~= Seq::<char>::empty());
        }
    }
    let mut hi: usize = n;
    proof {
        assert(s@.skip(lo as int).take(n - lo as int) =~= s@.skip(lo as int));
    }
    while hi > lo && space_char(s.get_char(hi - 1))
        invariant
            n == s@.len(),
            lo <= hi <= n,
            trim_front(s@) == s@.skip(lo as int),
            trim_back(s@.skip(lo as int)) == trim_back(
                s@.skip(lo as int).take(hi - lo as int),
            ),
        decreases hi,
    {
        proof {
            let x = s@.skip(lo as int).take(hi - lo as int);
            assert(x.last() == s@[hi - 1]);
            assert(x.drop_last() =~= s@.skip(lo as int).take(hi - 1 - lo as int));
        }
        hi -= 1;
    }
    proof {
        let x = s@.skip(lo as int).take(hi - lo as int);
        if hi > lo {
            assert(x.last() == s@[hi - 1]);
            assert(trim_back(x) == x);
        } else {
            assert(x =~= Seq::<char>::empty());
        }
        assert(s@.subrange(lo as int, hi as int) =~= s@.skip(lo as int).take(hi - lo as int));
    }
    let r = s.substring_char(lo, hi);
    r.to_owned()
}

/// A copy of `s` without its first `n` characters.
pub fn suffix_from(s: &str, n: usize) -> (r: String)
    requires
        n <= s@.len(),
    ensures
        r@ == s@.skip(n as int),
{
    let len = s.unicode_len();
    let r = s.substring_char(n, len);
    proof {
        assert(s@.subrange(n as int, s@.len() as int) =~= s@.skip(n as int));
    }
    r.to_owned()
}

/// `s` split on `sep_a` and `sep_b`, each segment as its own `String`.
pub fn split_str(s: &str, sep_a: char, sep_b: char) -> (r: Vec<String>)
    ensures
        r.deep_view() == split_on(s@, seq![sep_a, sep_b]),
{
    broadcast use vstd::std_specs::vec::vec_clone_deep_view_proof;

    let ghost seps: Seq<char> = seq![sep_a, sep_b];
    let n = s.unicode_len();
    let mut out: Vec<String> = Vec::new();
    let mut seg: usize = 0;
    let mut i: usize = 0;
    proof {
        assert(s@.subrange(0, 0) =~= Seq::<char>::empty());
        assert(s@.skip(0) =~= s@);
        assert(out.deep_view() =~= Seq::<Seq<char>>::empty());
        assert(Seq::<Seq<char>>::empty() + split_from(s@, seps, Seq::empty()) =~= split_from(
            s@,
            seps,
            Seq::empty(),
        ));
    }
    while i < n
        invariant
            n == s@.len(),
            seg <= i <= n,
            seps == seq![sep_a, sep_b],
            split_on(s@, seps) == out.deep_view() + split_from(
                s@.skip(i as int),
                seps,
                s@.subrange(seg as int, i as int),
            ),
        decreases n - i,
    {
        let c = s.get_char(i);
        proof {
            assert(s@.skip(i as int)[0] == s@[i as int]);
            assert(s@.skip(i as int).drop_first() =~= s@.skip(i as int + 1));
        }
        if c == sep_a || c == sep_b {
            let ghost old_out = out.deep_view();
            let piece = s.substring_char(seg, i);
            out.push(piece.to_owned());
            proof {
                assert(seps.contains(s@[i as int]));
                assert(out.deep_view() =~= old_out.push(s@.subrange(seg as int, i as int)));
                assert(s@.subrange(i as int + 1, i as int + 1) =~= Seq::<char>::empty());
                assert(old_out + (seq![s@.subrange(seg as int, i as int)] + split_from(
                    s@.skip(i as int + 1),
                    seps,
                    Seq::empty(),
                )) =~= out.deep_view() + split_from(
                    s@.skip(i as int + 1),
                    seps,
                    Seq::empty(),
                ));
            }
            seg = i + 1;
        } else {
            proof {
                assert(!seps.contains(s@[i as int]));
                assert(s@.subrange(seg as int, i as int).push(s@[i as int]) =~= s@.subrange(
                    seg as int,
                    i as int + 1,
                ));
            }
        }
        i += 1;
    }
    let ghost old_out = out.deep_view();
    let piece = s.substring_char(seg, n);
    out.push(piece.to_owned());
    proof {
        assert(s@.skip(n as int) =~= Seq::<char>::empty());
        assert(out.deep_view() =~= old_out.push(s@.subrange(seg as int, n as int)));
        assert(old_out + seq![s@.subrange(seg as int, n as int)] =~= out.deep_view());
    }
    out
}

} // verus!
