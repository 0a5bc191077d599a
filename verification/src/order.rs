//! Lexicographic order on strings, and a verified sort used by the
//! tracker listing.

use vstd::prelude::*;
use vstd::seq_lib::group_to_multiset_ensures;
use vstd::multiset::Multiset;

verus! {

/// Strict lexicographic order on character sequences, comparing scalar values.
pub open spec fn lex_lt(a: Seq<char>, b: Seq<char>) -> bool
    decreases a.len(),
{
    if b.len() == 0 {
        false
    } else if a.len() == 0 {
        true
    } else if (a[0] as int) < (b[0] as int) {
        true
    } else if (a[0] as int) > (b[0] as int) {
        false
    } else {
        lex_lt(a.drop_first(), b.drop_first())
    }
}

/// Reflexive closure of `lex_lt`.
pub open spec fn lex_le(a: Seq<char>, b: Seq<char>) -> bool {
    lex_lt(a, b) || a == b
}

/// Any two character sequences are ordered or equal.
pub proof fn lemma_lex_connected(a: Seq<char>, b: Seq<char>)
    ensures
        lex_lt(a, b) || lex_lt(b, a) || a == b,
    decreases a.len(),
{
    if b.len() == 0 {
        if a.len() == 0 {
            assert(a =~= b);
        }
    } else if a.len() == 0 {
    } else if (a[0] as int) < (b[0] as int) {
    } else if (a[0] as int) > (b[0] as int) {
    } else {
        lemma_lex_connected(a.drop_first(), b.drop_first());
        if a.drop_first() == b.drop_first() {
            assert(a.drop_first().len() == a.len() - 1);
            assert(b.drop_first().len() == b.len() - 1);
            assert(a.len() == b.len());
            assert(a[0] == b[0]);
            assert forall|i: int| 0 < i < a.len() implies a[i] == b[i] by {
                assert(a.drop_first()[i - 1] == b.drop_first()[i - 1]);
                assert(a.drop_first()[i - 1] == a[i]);
                assert(b.drop_first()[i - 1] == b[i]);
            }
            assert(a =~= b);
        }
    }
}

/// `lex_lt` is transitive.
pub proof fn lemma_lex_lt_trans(a: Seq<char>, b: Seq<char>, c: Seq<char>)
    requires
        lex_lt(a, b),
        lex_lt(b, c),
    ensures
        lex_lt(a, c),
    decreases a.len(),
{
    if a.len() == 0 {
    } else if (a[0] as int) < (c[0] as int) {
    } else {
        lemma_lex_lt_trans(a.drop_first(), b.drop_first(), c.drop_first());
    }
}

/// Sequences sorted in weakly ascending lexicographic order.
pub open spec fn lex_sorted(s: Seq<Seq<char>>) -> bool {
    forall|i: int, j: int| 0 <= i < j < s.len() ==> lex_le(s[i], s[j])
}

/// Compare two strings lexicographically.
pub fn str_lex_lt(a: &str, b: &str) -> (r: bool)
    ensures
        r == lex_lt(a@, b@),
    decreases a@.len(),
{
    let alen = a.unicode_len();
    let blen = b.unicode_len();
    if blen == 0 {
        false
    } else if alen == 0 {
        true
    } else {
        let ca = a.get_char(0);
        let cb = b.get_char(0);
        if (ca as u32) < (cb as u32) {
            true
        } else if (ca as u32) > (cb as u32) {
            false
        } else {
            assert(ca == cb);
            let ra = a.substring_char(1, alen);
            let rb = b.substring_char(1, blen);
            proof {
                assert(ra@ =~= a@.drop_first());
                assert(rb@ =~= b@.drop_first());
            }
            str_lex_lt(ra, rb)
        }
    }
}

/// Insert `x` into an already sorted vector, keeping it sorted.
fn sorted_insert(v: &mut Vec<String>, x: String)
    requires
        lex_sorted(old(v)@.map_values(|s: String| s@)),
    ensures
        lex_sorted(final(v)@.map_values(|s: String| s@)),
        final(v)@.to_multiset() == old(v)@.to_multiset().insert(x),
{
    let ghost orig = old(v)@.map_values(|s: String| s@);
    let ghost xv = x@;
    let mut j: usize = 0;
    loop
        invariant
            j <= v@.len(),
            v@ == old(v)@,
            x@ == xv,
            orig == old(v)@.map_values(|s: String| s@),
            forall|k: int| 0 <= k < j ==> !lex_lt(xv, orig[k]),
        ensures
            j <= old(v)@.len(),
            v@ == old(v)@,
            forall|k: int| 0 <= k < j ==> !lex_lt(xv, orig[k]),
            j < old(v)@.len() ==> lex_lt(xv, orig[j as int]),
        decreases v@.len() - j,
    {
        if j == v.len() {
            break ;
        }
        if str_lex_lt(x.as_str(), v[j].as_str()) {
            proof {
                assert(orig[j as int] == v@[j as int]@);
            }
            break ;
        }
        j = j + 1;
    }
    proof {
        vstd::seq_lib::to_multiset_insert(v@, j as int, x);
    }
    v.insert(j, x);
    proof {
        let after = v@.map_values(|s: String| s@);
        assert(after =~= orig.insert(j as int, xv));
        assert forall|k: int| 0 <= k < j implies lex_le(orig[k], xv) by {
            lemma_lex_connected(xv, orig[k]);
        }
        assert forall|k: int| j <= k < orig.len() implies lex_lt(xv, orig[k]) by {
            if k > j {
                assert(lex_le(orig[j as int], orig[k]));
                if orig[j as int] != orig[k] {
                    lemma_lex_lt_trans(xv, orig[j as int], orig[k]);
                }
            }
        }
        assert forall|p: int, q: int| 0 <= p < q < after.len() implies lex_le(
            after[p],
            after[q],
        ) by {
            if q < j {
                assert(lex_le(orig[p], orig[q]));
            } else if p > j {
                assert(lex_le(orig[p - 1], orig[q - 1]));
            } else if p == j {
                assert(lex_lt(xv, orig[q - 1]));
            } else if q == j {
                assert(lex_le(orig[p], xv));
            } else {
                assert(lex_le(orig[p], xv));
                assert(lex_lt(xv, orig[q - 1]));
                if orig[p] != xv {
                    lemma_lex_lt_trans(orig[p], xv, orig[q - 1]);
                }
            }
        }
    }
}

/// Sort the given strings in ascending lexicographic order.
pub fn sort_strings(v: Vec<String>) -> (r: Vec<String>)
    ensures
        lex_sorted(r@.map_values(|s: String| s@)),
        r@.to_multiset() == v@.to_multiset(),
{
    let ghost orig_ms = v@.to_multiset();
    let mut rest = v;
    let mut out: Vec<String> = Vec::new();
    proof {
        broadcast use group_to_multiset_ensures, vstd::multiset::group_multiset_axioms,
            vstd::multiset::lemma_multiset_empty_len;

        assert(out@.to_multiset().len() == 0);
        assert(out@.to_multiset() =~= Multiset::<String>::empty());
        assert(out@.to_multiset().add(rest@.to_multiset()) =~= rest@.to_multiset());
    }
    while rest.len() > 0
        invariant
            lex_sorted(out@.map_values(|s: String| s@)),
            out@.to_multiset().add(rest@.to_multiset()) == orig_ms,
        decreases rest@.len(),
    {
        let ghost pre_rest = rest@;
        let ghost pre_out_ms = out@.to_multiset();
        let x = match rest.pop() {
            Some(x) => x,
            None => {
                proof {
                    assert(false);
                }
                String::new()
            },
        };
        proof {
            broadcast use group_to_multiset_ensures;

            assert(pre_rest =~= rest@.push(x));
            assert(rest@.push(x).to_multiset() =~= rest@.to_multiset().insert(x));
        }
        sorted_insert(&mut out, x);
        proof {
            broadcast use vstd::multiset::group_multiset_axioms;

            assert(out@.to_multiset().add(rest@.to_multiset()) =~= pre_out_ms.add(
                pre_rest.to_multiset(),
            ));
        }
    }
    proof {
        broadcast use group_to_multiset_ensures, vstd::multiset::group_multiset_axioms,
            vstd::multiset::lemma_multiset_empty_len;

        assert(rest@.to_multiset().len() == 0);
        assert(rest@.to_multiset() =~= Multiset::<String>::empty());
        assert(out@.to_multiset() =~= orig_ms);
    }
    out
}

} // verus!
