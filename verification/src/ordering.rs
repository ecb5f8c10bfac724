//! Deterministic ordering of named type aliases: an association list with
//! last-wins update, and an insertion sort by name under the lexicographic
//! order, with the facts the emitter needs (names kept, uniqueness kept,
//! output sorted).

use vstd::prelude::*;
use vstd::string::*;

use crate::text::{
    lemma_lex_le_reflexive, lemma_lex_le_total, lemma_lex_le_transitive, lex_le_spec, str_eq,
    str_lex_le,
};

verus! {

/// A resolved alias: its synthesized name and its type expression.
pub type NamedType = (Seq<char>, Seq<char>);

/// True when some pair of `m` bears the name `n`.
pub open spec fn has_name_spec(m: Seq<NamedType>, n: Seq<char>) -> bool {
    exists|i: int| 0 <= i < m.len() && (#[trigger] m[i]).0 == n
}

/// True when no two pairs of `m` share a name.
pub open spec fn names_unique_spec(m: Seq<NamedType>) -> bool {
    forall|i: int, j: int| 0 <= i < j < m.len() ==> (#[trigger] m[i]).0 != (#[trigger] m[j]).0
}

/// True when the names of `m` are in ascending lexicographic order.
pub open spec fn sorted_by_name_spec(m: Seq<NamedType>) -> bool {
    forall|i: int, j: int|
        0 <= i <= j < m.len() ==> lex_le_spec((#[trigger] m[i]).0, (#[trigger] m[j]).0)
}

/// The association list `m` with the pair for `kv`'s name replaced by `kv`,
/// or with `kv` appended when the name is new.
pub open spec fn assoc_update_spec(m: Seq<NamedType>, kv: NamedType) -> Seq<NamedType>
    decreases m.len(),
{
    if m.len() == 0 {
        seq![kv]
    } else if m[0].0 == kv.0 {
        seq![kv] + m.drop_first()
    } else {
        seq![m[0]] + assoc_update_spec(m.drop_first(), kv)
    }
}

/// The pairs of `rs` folded into an association list, later pairs
/// overriding earlier ones of the same name.
pub open spec fn assoc_map_spec(rs: Seq<NamedType>) -> Seq<NamedType>
    decreases rs.len(),
{
    if rs.len() == 0 {
        Seq::<NamedType>::empty()
    } else {
        assoc_update_spec(assoc_map_spec(rs.drop_last()), rs.last())
    }
}

/// `kv` placed before the first pair of `m` whose name is not below `kv`'s.
pub open spec fn insert_sorted_spec(m: Seq<NamedType>, kv: NamedType) -> Seq<NamedType>
    decreases m.len(),
{
    if m.len() == 0 {
        seq![kv]
    } else if lex_le_spec(kv.0, m[0].0) {
        seq![kv] + m
    } else {
        seq![m[0]] + insert_sorted_spec(m.drop_first(), kv)
    }
}

/// The pairs of `m` rearranged into ascending name order by repeated
/// insertion.
pub open spec fn sort_pairs_spec(m: Seq<NamedType>) -> Seq<NamedType>
    decreases m.len(),
{
    if m.len() == 0 {
        Seq::<NamedType>::empty()
    } else {
        insert_sorted_spec(sort_pairs_spec(m.drop_last()), m.last())
    }
}

pub proof fn lemma_assoc_update_props(m: Seq<NamedType>, kv: NamedType)
    requires
        names_unique_spec(m),
    ensures
        names_unique_spec(assoc_update_spec(m, kv)),
        forall|n: Seq<char>|
            #[trigger] has_name_spec(assoc_update_spec(m, kv), n) <==> (has_name_spec(m, n) || n
                == kv.0),
        forall|i: int|
            0 <= i < assoc_update_spec(m, kv).len() ==> (#[trigger] assoc_update_spec(m, kv)[i]
                == kv || m.contains(assoc_update_spec(m, kv)[i])),
    decreases m.len(),
{
    let out = assoc_update_spec(m, kv);
    if m.len() == 0 {
        assert forall|n: Seq<char>| #[trigger]
            has_name_spec(out, n) <==> (has_name_spec(m, n) || n == kv.0) by {
            if n == kv.0 {
                assert(out[0].0 == n);
            }
        }
        assert(forall|i: int| 0 <= i < out.len() ==> out[i] == kv);
    } else if m[0].0 == kv.0 {
        assert(out =~= seq![kv] + m.drop_first());
        assert forall|n: Seq<char>| #[trigger]
            has_name_spec(out, n) <==> (has_name_spec(m, n) || n == kv.0) by {
            if has_name_spec(out, n) {
                let i = choose|i: int| 0 <= i < out.len() && out[i].0 == n;
                if i == 0 {
                    assert(n == kv.0);
                } else {
                    assert(m[i] == out[i]);
                    assert(has_name_spec(m, n));
                }
            }
            if has_name_spec(m, n) {
                let i = choose|i: int| 0 <= i < m.len() && m[i].0 == n;
                if i == 0 {
                    assert(n == kv.0);
                    assert(out[0].0 == n);
                } else {
                    assert(out[i] == m[i]);
                }
            }
            if n == kv.0 {
                assert(out[0].0 == n);
            }
        }
        assert forall|i: int| 0 <= i < out.len() implies (out[i] == kv || m.contains(out[i])) by {
            if i > 0 {
                assert(out[i] == m[i]);
            }
        }
        assert forall|i: int, j: int| 0 <= i < j < out.len() implies out[i].0 != out[j].0 by {
            if i == 0 {
                assert(out[j] == m[j]);
                assert(m[0].0 != m[j].0);
            } else {
                assert(out[i] == m[i]);
                assert(out[j] == m[j]);
            }
        }
    } else {
        let rest = m.drop_first();
        assert(names_unique_spec(rest)) by {
            assert(forall|i: int| 0 <= i < rest.len() ==> rest[i] == m[i + 1]);
        }
        lemma_assoc_update_props(rest, kv);
        let sub = assoc_update_spec(rest, kv);
        assert(out =~= seq![m[0]] + sub);
        assert forall|n: Seq<char>| #[trigger]
            has_name_spec(out, n) <==> (has_name_spec(m, n) || n == kv.0) by {
            if has_name_spec(out, n) {
                let i = choose|i: int| 0 <= i < out.len() && out[i].0 == n;
                if i == 0 {
                    assert(m[0].0 == n);
                } else {
                    assert(sub[i - 1].0 == n);
                    assert(has_name_spec(sub, n));
                    if has_name_spec(rest, n) {
                        let k = choose|k: int| 0 <= k < rest.len() && rest[k].0 == n;
                        assert(m[k + 1].0 == n);
                    }
                }
            }
            if has_name_spec(m, n) {
                let i = choose|i: int| 0 <= i < m.len() && m[i].0 == n;
                if i == 0 {
                    assert(out[0].0 == n);
                } else {
                    assert(rest[i - 1].0 == n);
                    assert(has_name_spec(rest, n));
                    assert(has_name_spec(sub, n));
                    let k = choose|k: int| 0 <= k < sub.len() && sub[k].0 == n;
                    assert(out[k + 1].0 == n);
                }
            }
            if n == kv.0 {
                assert(has_name_spec(sub, n));
                let k = choose|k: int| 0 <= k < sub.len() && sub[k].0 == n;
                assert(out[k + 1].0 == n);
            }
        }
        assert forall|i: int| 0 <= i < out.len() implies (out[i] == kv || m.contains(out[i])) by {
            if i > 0 {
                assert(out[i] == sub[i - 1]);
                if sub[i - 1] != kv {
                    assert(rest.contains(sub[i - 1]));
                    let k = choose|k: int| 0 <= k < rest.len() && rest[k] == sub[i - 1];
                    assert(m[k + 1] == sub[i - 1]);
                }
            }
        }
        assert forall|i: int, j: int| 0 <= i < j < out.len() implies out[i].0 != out[j].0 by {
            if i == 0 {
                assert(out[j] == sub[j - 1]);
                if sub[j - 1] == kv {
                    assert(out[j].0 == kv.0);
                    assert(m[0].0 != kv.0);
                } else {
                    assert(rest.contains(sub[j - 1]));
                    let k = choose|k: int| 0 <= k < rest.len() && rest[k] == sub[j - 1];
                    assert(m[k + 1] == sub[j - 1]);
                    assert(m[0].0 != m[k + 1].0);
                }
            } else {
                assert(out[i] == sub[i - 1]);
                assert(out[j] == sub[j - 1]);
            }
        }
    }
}

pub proof fn lemma_assoc_map_props(rs: Seq<NamedType>)
    ensures
        names_unique_spec(assoc_map_spec(rs)),
        forall|n: Seq<char>|
            #[trigger] has_name_spec(assoc_map_spec(rs), n) <==> has_name_spec(rs, n),
        forall|i: int|
            0 <= i < assoc_map_spec(rs).len() ==> rs.contains(#[trigger] assoc_map_spec(rs)[i]),
    decreases rs.len(),
{
    let out = assoc_map_spec(rs);
    if rs.len() == 0 {
        assert forall|n: Seq<char>| #[trigger]
            has_name_spec(out, n) <==> has_name_spec(rs, n) by {}
    } else {
        let prefix = rs.drop_last();
        lemma_assoc_map_props(prefix);
        let sub = assoc_map_spec(prefix);
        lemma_assoc_update_props(sub, rs.last());
        assert forall|n: Seq<char>| #[trigger]
            has_name_spec(out, n) <==> has_name_spec(rs, n) by {
            assert(has_name_spec(out, n) <==> (has_name_spec(sub, n) || n == rs.last().0));
            if has_name_spec(prefix, n) {
                let i = choose|i: int| 0 <= i < prefix.len() && prefix[i].0 == n;
                assert(rs[i].0 == n);
            }
            if n == rs.last().0 {
                assert(rs[rs.len() - 1].0 == n);
            }
            if has_name_spec(rs, n) {
                let i = choose|i: int| 0 <= i < rs.len() && rs[i].0 == n;
                if i < rs.len() - 1 {
                    assert(prefix[i].0 == n);
                    assert(has_name_spec(prefix, n));
                } else {
                    assert(n == rs.last().0);
                }
            }
        }
        assert forall|i: int| 0 <= i < out.len() implies rs.contains(#[trigger] out[i]) by {
            if out[i] == rs.last() {
                assert(rs[rs.len() - 1] == out[i]);
            } else {
                assert(sub.contains(out[i]));
                let k = choose|k: int| 0 <= k < sub.len() && sub[k] == out[i];
                assert(prefix.contains(out[i]));
                let j = choose|j: int| 0 <= j < prefix.len() && prefix[j] == out[i];
                assert(rs[j] == out[i]);
            }
        }
    }
}

pub proof fn lemma_insert_sorted_props(m: Seq<NamedType>, kv: NamedType)
    requires
        sorted_by_name_spec(m),
    ensures
        sorted_by_name_spec(insert_sorted_spec(m, kv)),
        insert_sorted_spec(m, kv).len() == m.len() + 1,
        forall|n: Seq<char>|
            #[trigger] has_name_spec(insert_sorted_spec(m, kv), n) <==> (has_name_spec(m, n) || n
                == kv.0),
        forall|i: int|
            0 <= i < insert_sorted_spec(m, kv).len() ==> (#[trigger] insert_sorted_spec(m, kv)[i]
                == kv || m.contains(insert_sorted_spec(m, kv)[i])),
        !has_name_spec(m, kv.0) && names_unique_spec(m) ==> names_unique_spec(
            insert_sorted_spec(m, kv),
        ),
    decreases m.len(),
{
    let out = insert_sorted_spec(m, kv);
    lemma_lex_le_reflexive(kv.0);
    if m.len() == 0 {
        assert forall|n: Seq<char>| #[trigger]
            has_name_spec(out, n) <==> (has_name_spec(m, n) || n == kv.0) by {
            if n == kv.0 {
                assert(out[0].0 == n);
            }
        }
        assert(forall|i: int| 0 <= i < out.len() ==> out[i] == kv);
    } else if lex_le_spec(kv.0, m[0].0) {
        assert(out =~= seq![kv] + m);
        assert forall|i: int, j: int| 0 <= i <= j < out.len() implies lex_le_spec(
            out[i].0,
            out[j].0,
        ) by {
            if i == 0 && j > 0 {
                assert(out[j] == m[j - 1]);
                lemma_lex_le_transitive(kv.0, m[0].0, m[j - 1].0);
            } else if i > 0 {
                assert(out[i] == m[i - 1]);
                assert(out[j] == m[j - 1]);
            }
        }
        assert forall|n: Seq<char>| #[trigger]
            has_name_spec(out, n) <==> (has_name_spec(m, n) || n == kv.0) by {
            if has_name_spec(out, n) {
                let i = choose|i: int| 0 <= i < out.len() && out[i].0 == n;
                if i > 0 {
                    assert(m[i - 1].0 == n);
                }
            }
            if has_name_spec(m, n) {
                let i = choose|i: int| 0 <= i < m.len() && m[i].0 == n;
                assert(out[i + 1].0 == n);
            }
            if n == kv.0 {
                assert(out[0].0 == n);
            }
        }
        assert forall|i: int| 0 <= i < out.len() implies (out[i] == kv || m.contains(out[i])) by {
            if i > 0 {
                assert(out[i] == m[i - 1]);
            }
        }
        if !has_name_spec(m, kv.0) && names_unique_spec(m) {
            assert forall|i: int, j: int| 0 <= i < j < out.len() implies out[i].0 != out[j].0 by {
                if i == 0 {
                    assert(out[j] == m[j - 1]);
                    assert(!(m[j - 1].0 == kv.0));
                } else {
                    assert(out[i] == m[i - 1]);
                    assert(out[j] == m[j - 1]);
                }
            }
        }
    } else {
        let rest = m.drop_first();
        assert(sorted_by_name_spec(rest)) by {
            assert(forall|i: int| 0 <= i < rest.len() ==> rest[i] == m[i + 1]);
        }
        lemma_insert_sorted_props(rest, kv);
        let sub = insert_sorted_spec(rest, kv);
        assert(out =~= seq![m[0]] + sub);
        lemma_lex_le_total(kv.0, m[0].0);
        assert(lex_le_spec(m[0].0, kv.0));
        assert forall|i: int, j: int| 0 <= i <= j < out.len() implies lex_le_spec(
            out[i].0,
            out[j].0,
        ) by {
            if i == 0 && j > 0 {
                assert(out[j] == sub[j - 1]);
                if sub[j - 1] == kv {
                    assert(lex_le_spec(m[0].0, kv.0));
                } else {
                    assert(rest.contains(sub[j - 1]));
                    let k = choose|k: int| 0 <= k < rest.len() && rest[k] == sub[j - 1];
                    assert(rest[k] == m[k + 1]);
                    assert(lex_le_spec(m[0].0, m[k + 1].0));
                }
            } else if i > 0 {
                assert(out[i] == sub[i - 1]);
                assert(out[j] == sub[j - 1]);
            }
        }
        assert forall|n: Seq<char>| #[trigger]
            has_name_spec(out, n) <==> (has_name_spec(m, n) || n == kv.0) by {
            if has_name_spec(out, n) {
                let i = choose|i: int| 0 <= i < out.len() && out[i].0 == n;
                if i == 0 {
                    assert(m[0].0 == n);
                } else {
                    assert(sub[i - 1].0 == n);
                    assert(has_name_spec(sub, n));
                    if has_name_spec(rest, n) {
                        let k = choose|k: int| 0 <= k < rest.len() && rest[k].0 == n;
                        assert(m[k + 1].0 == n);
                    }
                }
            }
            if has_name_spec(m, n) {
                let i = choose|i: int| 0 <= i < m.len() && m[i].0 == n;
                if i == 0 {
                    assert(out[0].0 == n);
                } else {
                    assert(rest[i - 1].0 == n);
                    assert(has_name_spec(rest, n));
                    assert(has_name_spec(sub, n));
                    let k = choose|k: int| 0 <= k < sub.len() && sub[k].0 == n;
                    assert(out[k + 1].0 == n);
                }
            }
            if n == kv.0 {
                assert(has_name_spec(sub, n));
                let k = choose|k: int| 0 <= k < sub.len() && sub[k].0 == n;
                assert(out[k + 1].0 == n);
            }
        }
        assert forall|i: int| 0 <= i < out.len() implies (out[i] == kv || m.contains(out[i])) by {
            if i > 0 {
                assert(out[i] == sub[i - 1]);
                if sub[i - 1] != kv {
                    assert(rest.contains(sub[i - 1]));
                    let k = choose|k: int| 0 <= k < rest.len() && rest[k] == sub[i - 1];
                    assert(m[k + 1] == sub[i - 1]);
                }
            }
        }
        if !has_name_spec(m, kv.0) && names_unique_spec(m) {
            assert(!has_name_spec(rest, kv.0)) by {
                if has_name_spec(rest, kv.0) {
                    let k = choose|k: int| 0 <= k < rest.len() && rest[k].0 == kv.0;
                    assert(m[k + 1].0 == kv.0);
                }
            }
            assert(names_unique_spec(rest)) by {
                assert(forall|i: int| 0 <= i < rest.len() ==> rest[i] == m[i + 1]);
            }
            assert forall|i: int, j: int| 0 <= i < j < out.len() implies out[i].0 != out[j].0 by {
                if i == 0 {
                    assert(out[j] == sub[j - 1]);
                    if sub[j - 1] == kv {
                        assert(m[0].0 != kv.0);
                    } else {
                        assert(rest.contains(sub[j - 1]));
                        let k = choose|k: int| 0 <= k < rest.len() && rest[k] == sub[j - 1];
                        assert(m[k + 1] == sub[j - 1]);
                        assert(m[0].0 != m[k + 1].0);
                    }
                } else {
                    assert(out[i] == sub[i - 1]);
                    assert(out[j] == sub[j - 1]);
                }
            }
        }
    }
}

pub proof fn lemma_sort_pairs_props(rs: Seq<NamedType>)
    ensures
        sorted_by_name_spec(sort_pairs_spec(rs)),
        sort_pairs_spec(rs).len() == rs.len(),
        forall|n: Seq<char>|
            #[trigger] has_name_spec(sort_pairs_spec(rs), n) <==> has_name_spec(rs, n),
        forall|i: int|
            0 <= i < sort_pairs_spec(rs).len() ==> rs.contains(#[trigger] sort_pairs_spec(rs)[i]),
        names_unique_spec(rs) ==> names_unique_spec(sort_pairs_spec(rs)),
    decreases rs.len(),
{
    let out = sort_pairs_spec(rs);
    if rs.len() == 0 {
        assert forall|n: Seq<char>| #[trigger]
            has_name_spec(out, n) <==> has_name_spec(rs, n) by {}
    } else {
        let prefix = rs.drop_last();
        lemma_sort_pairs_props(prefix);
        let sub = sort_pairs_spec(prefix);
        lemma_insert_sorted_props(sub, rs.last());
        assert forall|n: Seq<char>| #[trigger]
            has_name_spec(out, n) <==> has_name_spec(rs, n) by {
            assert(has_name_spec(out, n) <==> (has_name_spec(sub, n) || n == rs.last().0));
            if has_name_spec(prefix, n) {
                let i = choose|i: int| 0 <= i < prefix.len() && prefix[i].0 == n;
                assert(rs[i].0 == n);
            }
            if n == rs.last().0 {
                assert(rs[rs.len() - 1].0 == n);
            }
            if has_name_spec(rs, n) {
                let i = choose|i: int| 0 <= i < rs.len() && rs[i].0 == n;
                if i < rs.len() - 1 {
                    assert(prefix[i].0 == n);
                    assert(has_name_spec(prefix, n));
                } else {
                    assert(n == rs.last().0);
                }
            }
        }
        assert forall|i: int| 0 <= i < out.len() implies rs.contains(#[trigger] out[i]) by {
            if out[i] == rs.last() {
                assert(rs[rs.len() - 1] == out[i]);
            } else {
                assert(sub.contains(out[i]));
                let k = choose|k: int| 0 <= k < sub.len() && sub[k] == out[i];
                assert(prefix.contains(out[i]));
                let j = choose|j: int| 0 <= j < prefix.len() && prefix[j] == out[i];
                assert(rs[j] == out[i]);
            }
        }
        if names_unique_spec(rs) {
            assert(names_unique_spec(prefix)) by {
                assert(forall|i: int| 0 <= i < prefix.len() ==> prefix[i] == rs[i]);
            }
            assert(!has_name_spec(prefix, rs.last().0)) by {
                if has_name_spec(prefix, rs.last().0) {
                    let k = choose|k: int|
                        0 <= k < prefix.len() && prefix[k].0 == rs.last().0;
                    assert(rs[k].0 == rs[rs.len() - 1].0);
                }
            }
            assert(!has_name_spec(sub, rs.last().0));
        }
    }
}

/// Replaces the pair bearing `key`'s name, or appends a new pair.
pub fn upsert_pair(assoc: &mut Vec<(String, String)>, key: String, value: String)
    ensures
        final(assoc).deep_view() == assoc_update_spec(old(assoc).deep_view(), (key@, value@)),
{
    let mut i: usize = 0;
    while i < assoc.len()
        invariant
            i <= assoc@.len(),
            assoc@.len() == assoc.deep_view().len(),
            forall|k: int| 0 <= k < i ==> (#[trigger] assoc.deep_view()[k]).0 != key@,
            assoc == old(assoc),
        decreases assoc@.len() - i,
    {
        if str_eq(assoc[i].0.as_str(), key.as_str()) {
            let ghost m = assoc.deep_view();
            let ghost pos = i as int;
            assoc.set(i, (key, value));
            proof {
                assert(assoc.deep_view() =~~= m.update(pos, (key@, value@)));
                lemma_assoc_update_at(m, (key@, value@), pos);
            }
            return ;
        }
        i = i + 1;
    }
    let ghost m = assoc.deep_view();
    assoc.push((key, value));
    proof {
        assert(assoc.deep_view() =~~= m.push((key@, value@)));
        lemma_assoc_update_missing(m, (key@, value@));
    }
}

proof fn lemma_assoc_update_at(m: Seq<NamedType>, kv: NamedType, j: int)
    requires
        0 <= j < m.len(),
        m[j].0 == kv.0,
        forall|k: int| 0 <= k < j ==> (#[trigger] m[k]).0 != kv.0,
    ensures
        assoc_update_spec(m, kv) == m.update(j, kv),
    decreases j,
{
    if j == 0 {
        assert(assoc_update_spec(m, kv) =~= m.update(0, kv));
    } else {
        assert(m[0].0 != kv.0);
        let rest = m.drop_first();
        assert(forall|k: int| 0 <= k < j - 1 ==> rest[k] == m[k + 1]);
        assert(rest[j - 1] == m[j]);
        lemma_assoc_update_at(rest, kv, j - 1);
        assert(seq![m[0]] + rest.update(j - 1, kv) =~= m.update(j, kv));
    }
}

proof fn lemma_assoc_update_missing(m: Seq<NamedType>, kv: NamedType)
    requires
        forall|k: int| 0 <= k < m.len() ==> (#[trigger] m[k]).0 != kv.0,
    ensures
        assoc_update_spec(m, kv) == m.push(kv),
    decreases m.len(),
{
    if m.len() == 0 {
        assert(assoc_update_spec(m, kv) =~= m.push(kv));
    } else {
        let rest = m.drop_first();
        assert(forall|k: int| 0 <= k < rest.len() ==> rest[k] == m[k + 1]);
        lemma_assoc_update_missing(rest, kv);
        assert(seq![m[0]] + rest.push(kv) =~= m.push(kv));
    }
}

/// Inserts `kv` in front of the first pair whose name is not below its own.
pub fn insert_pair_sorted(sorted: &mut Vec<(String, String)>, kv: (String, String))
    ensures
        final(sorted).deep_view() == insert_sorted_spec(old(sorted).deep_view(), (kv.0@, kv.1@)),
{
    let mut i: usize = 0;
    while i < sorted.len()
        invariant
            i <= sorted@.len(),
            sorted@.len() == sorted.deep_view().len(),
            forall|k: int| 0 <= k < i ==> !lex_le_spec(kv.0@, (#[trigger] sorted.deep_view()[k]).0),
            sorted == old(sorted),
        decreases sorted@.len() - i,
    {
        if str_lex_le(kv.0.as_str(), sorted[i].0.as_str()) {
            let ghost m = sorted.deep_view();
            let ghost pos = i as int;
            sorted.insert(i, kv);
            proof {
                assert(sorted.deep_view() =~~= m.insert(pos, (kv.0@, kv.1@)));
                lemma_insert_sorted_at(m, (kv.0@, kv.1@), pos);
            }
            return ;
        }
        i = i + 1;
    }
    let ghost m = sorted.deep_view();
    let ghost n = sorted@.len() as int;
    sorted.push(kv);
    proof {
        assert(sorted.deep_view() =~~= m.push((kv.0@, kv.1@)));
        assert(m.push((kv.0@, kv.1@)) =~= m.insert(n, (kv.0@, kv.1@)));
        lemma_insert_sorted_at(m, (kv.0@, kv.1@), n);
    }
}

proof fn lemma_insert_sorted_at(m: Seq<NamedType>, kv: NamedType, j: int)
    requires
        0 <= j <= m.len(),
        forall|k: int| 0 <= k < j ==> !lex_le_spec(kv.0, (#[trigger] m[k]).0),
        j < m.len() ==> lex_le_spec(kv.0, m[j].0),
    ensures
        insert_sorted_spec(m, kv) == m.insert(j, kv),
    decreases m.len(),
{
    if m.len() == 0 {
        assert(insert_sorted_spec(m, kv) =~= m.insert(0, kv));
    } else if j == 0 {
        assert(seq![kv] + m =~= m.insert(0, kv));
    } else {
        assert(!lex_le_spec(kv.0, m[0].0));
        let rest = m.drop_first();
        assert(forall|k: int| 0 <= k < j - 1 ==> rest[k] == m[k + 1]);
        if j - 1 < rest.len() {
            assert(rest[j - 1] == m[j]);
        }
        lemma_insert_sorted_at(rest, kv, j - 1);
        assert(seq![m[0]] + rest.insert(j - 1, kv) =~= m.insert(j, kv));
    }
}

/// The pairs of `m` folded into an association list, later pairs replacing
/// earlier ones of the same name.
pub fn build_assoc(resolved: &Vec<(String, String)>) -> (r: Vec<(String, String)>)
    ensures
        r.deep_view() == assoc_map_spec(resolved.deep_view()),
{
    let mut assoc: Vec<(String, String)> = Vec::new();
    let mut i: usize = 0;
    proof {
        assert(resolved.deep_view().take(0) =~= Seq::<NamedType>::empty());
    }
    while i < resolved.len()
        invariant
            i <= resolved@.len(),
            resolved@.len() == resolved.deep_view().len(),
            assoc.deep_view() == assoc_map_spec(resolved.deep_view().take(i as int)),
        decreases resolved@.len() - i,
    {
        proof {
            assert(resolved.deep_view().take(i + 1).drop_last() =~= resolved.deep_view().take(
                i as int,
            ));
            assert(resolved.deep_view().take(i + 1).last() == resolved.deep_view()[i as int]);
        }
        let key = resolved[i].0.clone();
        let value = resolved[i].1.clone();
        upsert_pair(&mut assoc, key, value);
        i = i + 1;
    }
    proof {
        assert(resolved.deep_view().take(resolved.deep_view().len() as int) =~= resolved.deep_view());
    }
    assoc
}

/// The pairs of `m` rearranged into ascending name order.
pub fn sort_pairs(pairs: &Vec<(String, String)>) -> (r: Vec<(String, String)>)
    ensures
        r.deep_view() == sort_pairs_spec(pairs.deep_view()),
{
    let mut sorted: Vec<(String, String)> = Vec::new();
    let mut i: usize = 0;
    proof {
        assert(pairs.deep_view().take(0) =~= Seq::<NamedType>::empty());
    }
    while i < pairs.len()
        invariant
            i <= pairs@.len(),
            pairs@.len() == pairs.deep_view().len(),
            sorted.deep_view() == sort_pairs_spec(pairs.deep_view().take(i as int)),
        decreases pairs@.len() - i,
    {
        proof {
            assert(pairs.deep_view().take(i + 1).drop_last() =~= pairs.deep_view().take(i as int));
            assert(pairs.deep_view().take(i + 1).last() == pairs.deep_view()[i as int]);
        }
        let key = pairs[i].0.clone();
        let value = pairs[i].1.clone();
        insert_pair_sorted(&mut sorted, (key, value));
        i = i + 1;
    }
    proof {
        assert(pairs.deep_view().take(pairs.deep_view().len() as int) =~= pairs.deep_view());
    }
    sorted
}

} // verus!
