//! Display ordering of the discovered applications: ascending by
//! lowercased name, the way the launcher grid presents them.

use vstd::prelude::*;
use vstd::string::*;

use crate::state::AppInfo;

verus! {

/// What `str::to_lowercase` returns for these characters.
pub uninterp spec fn lower_of(s: Seq<char>) -> Seq<char>;

/// Relies on `str::to_lowercase`: Unicode lowercasing, a function of the
/// characters alone.
#[verifier::external_body]
fn lowercase(s: &str) -> (r: String)
    ensures
        r@ == lower_of(s@),
{
    s.to_lowercase()
}

/// Lexicographic order on character sequences, by code point.
pub open spec fn lex_le(a: Seq<char>, b: Seq<char>) -> bool
    decreases a.len(),
{
    if a.len() == 0 {
        true
    } else if b.len() == 0 {
        false
    } else if (a[0] as u32) < (b[0] as u32) {
        true
    } else if (a[0] as u32) > (b[0] as u32) {
        false
    } else {
        lex_le(a.drop_first(), b.drop_first())
    }
}

/// The order is total: two sequences always compare one way or the other.
pub proof fn lemma_lex_le_total(a: Seq<char>, b: Seq<char>)
    ensures
        lex_le(a, b) || lex_le(b, a),
    decreases a.len(),
{
    if a.len() > 0 && b.len() > 0 && (a[0] as u32) == (b[0] as u32) {
        lemma_lex_le_total(a.drop_first(), b.drop_first());
    }
}

/// The order is transitive.
pub proof fn lemma_lex_le_trans(a: Seq<char>, b: Seq<char>, c: Seq<char>)
    requires
        lex_le(a, b),
        lex_le(b, c),
    ensures
        lex_le(a, c),
    decreases a.len(),
{
    if a.len() > 0 && b.len() > 0 && c.len() > 0 && (a[0] as u32) == (b[0] as u32) && (b[0]
        as u32) == (c[0] as u32) {
        lemma_lex_le_trans(a.drop_first(), b.drop_first(), c.drop_first());
    }
}

/// Compares two strings in the lexicographic order of their characters.
fn lex_le_str(a: &str, b: &str) -> (r: bool)
    ensures
        r == lex_le(a@, b@),
{
    let la = a.unicode_len();
    let lb = b.unicode_len();
    let mut i: usize = 0;
    proof {
        assert(a@.skip(0) =~= a@);
        assert(b@.skip(0) =~= b@);
    }
    while i < la && i < lb
        invariant
            la == a@.len(),
            lb == b@.len(),
            i <= la,
            i <= lb,
            lex_le(a@, b@) == lex_le(a@.skip(i as int), b@.skip(i as int)),
            lex_le(b@, a@) == lex_le(b@.skip(i as int), a@.skip(i as int)),
        decreases la - i,
    {
        let ca = a.get_char(i);
        let cb = b.get_char(i);
        proof {
            assert(a@.skip(i as int)[0] == a@[i as int]);
            assert(b@.skip(i as int)[0] == b@[i as int]);
            assert(a@.skip(i as int).drop_first() =~= a@.skip(i as int + 1));
            assert(b@.skip(i as int).drop_first() =~= b@.skip(i as int + 1));
        }
        if (ca as u32) < (cb as u32) {
            return true;
        }
        if (ca as u32) > (cb as u32) {
            return false;
        }
        i += 1;
    }
    proof {
        if la <= lb {
            assert(a@.skip(la as int) =~= Seq::<char>::empty());
        } else {
            assert(b@.skip(lb as int) =~= Seq::<char>::empty());
        }
    }
    la <= lb
}

/// The sort key of an application: its name, lowercased.
pub open spec fn app_key(a: AppInfo) -> Seq<char> {
    lower_of(a.name@)
}

/// Ascending by lowercased name.
pub open spec fn apps_sorted(s: Seq<AppInfo>) -> bool {
    forall|i: int, j: int|
        0 <= i < j < s.len() ==> lex_le(app_key(#[trigger] s[i]), app_key(#[trigger] s[j]))
}

/// Compares two applications by their sort keys.
fn app_le(a: &AppInfo, b: &AppInfo) -> (r: bool)
    ensures
        r == lex_le(app_key(*a), app_key(*b)),
{
    let ka = lowercase(a.name.as_str());
    let kb = lowercase(b.name.as_str());
    lex_le_str(ka.as_str(), kb.as_str())
}

/// The applications reordered ascending by lowercased name: the result is
/// sorted and holds exactly the given applications.
pub fn sort_apps(apps: Vec<AppInfo>) -> (r: Vec<AppInfo>)
    ensures
        apps_sorted(r@),
        r@.to_multiset() == apps@.to_multiset(),
{
    broadcast use vstd::seq_lib::group_to_multiset_ensures;

    let mut rest = apps;
    let mut out: Vec<AppInfo> = Vec::new();
    proof {
        assert(out@ =~= Seq::<AppInfo>::empty());
        assert(out@.to_multiset().add(rest@.to_multiset()) =~= apps@.to_multiset());
    }
    while rest.len() > 0
        invariant
            apps_sorted(out@),
            out@.to_multiset().add(rest@.to_multiset()) == apps@.to_multiset(),
        decreases rest@.len(),
    {
        let ghost rest0 = rest@;
        let ghost out0 = out@;
        let x = rest.pop().unwrap();
        proof {
            assert(rest0 =~= rest@.push(x));
            vstd::seq_lib::to_multiset_build(rest@, x);
            assert(rest0.to_multiset() == rest@.to_multiset().insert(x));
        }
        let mut j = out.len();
        while j > 0 && !app_le(&out[j - 1], &x)
            invariant
                j <= out@.len(),
                out@ == out0,
                apps_sorted(out@),
                forall|p: int|
                    j <= p < out@.len() ==> !lex_le(app_key(#[trigger] out@[p]), app_key(x)),
            decreases j,
        {
            j -= 1;
        }
        proof {
            out0.insert_ensures(j as int, x);
        }
        out.insert(j, x);
        proof {
            let s2 = out0.insert(j as int, x);
            assert(out@ == s2);
            assert forall|i1: int, j1: int| 0 <= i1 < j1 < s2.len() implies lex_le(
                app_key(s2[i1]),
                app_key(s2[j1]),
            ) by {
                if j1 == j {
                    assert(s2[j1] == x);
                    assert(s2[i1] == out0[i1]);
                    if i1 < j - 1 {
                        assert(lex_le(app_key(out0[i1]), app_key(out0[j - 1])));
                        lemma_lex_le_trans(app_key(out0[i1]), app_key(out0[j - 1]), app_key(x));
                    }
                } else if i1 == j {
                    assert(s2[i1] == x);
                    assert(s2[j1] == out0[j1 - 1]);
                    assert(!lex_le(app_key(out0[j1 - 1]), app_key(x)));
                    lemma_lex_le_total(app_key(out0[j1 - 1]), app_key(x));
                } else if i1 < j && j1 > j {
                    assert(s2[i1] == out0[i1]);
                    assert(s2[j1] == out0[j1 - 1]);
                    if i1 < j - 1 {
                        assert(lex_le(app_key(out0[i1]), app_key(out0[j1 - 1])));
                    } else {
                        assert(i1 == j - 1);
                        if j <= j1 - 1 {
                            assert(!lex_le(app_key(out0[j1 - 1]), app_key(x)));
                            lemma_lex_le_total(app_key(out0[j1 - 1]), app_key(x));
                            assert(lex_le(app_key(x), app_key(out0[j1 - 1])));
                            assert(lex_le(app_key(out0[j - 1]), app_key(x)));
                            lemma_lex_le_trans(
                                app_key(out0[j - 1]),
                                app_key(x),
                                app_key(out0[j1 - 1]),
                            );
                        }
                    }
                } else if j1 < j {
                    assert(s2[i1] == out0[i1]);
                    assert(s2[j1] == out0[j1]);
                } else {
                    assert(s2[i1] == out0[i1 - 1]);
                    assert(s2[j1] == out0[j1 - 1]);
                }
            }
            vstd::seq_lib::to_multiset_insert(out0, j as int, x);
            assert(s2.to_multiset() == out0.to_multiset().insert(x));
            assert(out@.to_multiset().add(rest@.to_multiset()) =~= out0.to_multiset().insert(
                x,
            ).add(rest@.to_multiset()));
            assert(out0.to_multiset().insert(x).add(rest@.to_multiset()) =~= out0.to_multiset().add(
                rest@.to_multiset().insert(x),
            ));
        }
    }
    proof {
        assert(rest@.to_multiset().len() == 0);
        assert(out@.to_multiset().add(rest@.to_multiset()) =~= out@.to_multiset());
    }
    out
}

} // verus!
