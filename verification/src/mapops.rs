use vstd::prelude::*;
use crate::model::{MapEntry, Mapping, Scalar, ScalarV, map_view, scalar_view};
use crate::strutil::{lemma_lex_total, lex_lt, str_eq, str_lt};

verus! {

/// Insertion into a key-sorted entry list: replaces an equal key, keeps
/// strict ordering otherwise.
pub open spec fn spec_map_insert(
    m: Seq<(Seq<char>, ScalarV)>,
    k: Seq<char>,
    v: ScalarV,
) -> Seq<(Seq<char>, ScalarV)>
    decreases m.len(),
{
    if m.len() == 0 {
        seq![(k, v)]
    } else if lex_lt(k, m[0].0) {
        seq![(k, v)] + m
    } else if k == m[0].0 {
        seq![(k, v)] + m.skip(1)
    } else {
        seq![m[0]] + spec_map_insert(m.skip(1), k, v)
    }
}

/// Inserting a key greater than every present key appends the entry.
pub proof fn lemma_insert_at_end(m: Seq<(Seq<char>, ScalarV)>, k: Seq<char>, v: ScalarV)
    requires
        forall|i: int| 0 <= i < m.len() ==> lex_lt(#[trigger] m[i].0, k),
    ensures
        spec_map_insert(m, k, v) == m.push((k, v)),
    decreases m.len(),
{
    if m.len() == 0 {
        assert(spec_map_insert(m, k, v) =~= m.push((k, v)));
    } else {
        crate::strutil::lemma_lex_irrefl(k);
        if lex_lt(k, m[0].0) {
            crate::strutil::lemma_lex_trans(k, m[0].0, k);
        }
        assert(m[0].0 != k) by {
            crate::strutil::lemma_lex_irrefl(k);
        }
        lemma_insert_at_end(m.skip(1), k, v);
        assert(seq![m[0]] + m.skip(1).push((k, v)) =~= m.push((k, v)));
    }
}

/// The scan step: entries strictly below `k` stay in front.
proof fn lemma_insert_skip(m: Seq<(Seq<char>, ScalarV)>, k: Seq<char>, v: ScalarV, idx: int)
    requires
        0 <= idx <= m.len(),
        forall|i: int| 0 <= i < idx ==> lex_lt(#[trigger] m[i].0, k),
    ensures
        spec_map_insert(m, k, v) == m.take(idx) + spec_map_insert(m.skip(idx), k, v),
    decreases idx,
{
    if idx == 0 {
        assert(m.skip(0) =~= m);
        assert(m.take(0) + spec_map_insert(m, k, v) =~= spec_map_insert(m, k, v));
    } else {
        assert(lex_lt(m[0].0, k));
        crate::strutil::lemma_lex_irrefl(k);
        if lex_lt(k, m[0].0) {
            crate::strutil::lemma_lex_trans(k, m[0].0, k);
        }
        assert(m[0].0 != k) by {
            crate::strutil::lemma_lex_irrefl(m[0].0);
            if k == m[0].0 {
            }
        }
        lemma_insert_skip(m.skip(1), k, v, idx - 1);
        assert(m.skip(1).take(idx - 1) =~= m.take(idx).skip(1));
        assert(m.skip(1).skip(idx - 1) =~= m.skip(idx));
        assert(seq![m[0]] + (m.take(idx).skip(1) + spec_map_insert(m.skip(idx), k, v)) =~= m.take(
            idx,
        ) + spec_map_insert(m.skip(idx), k, v));
    }
}

/// Inserts one entry, keeping the entries strictly sorted by key and
/// replacing the value of an equal key.
pub fn map_insert(m: &mut Mapping, key: String, val: Scalar)
    ensures
        map_view(*final(m)) == spec_map_insert(map_view(*old(m)), key@, scalar_view(val)),
{
    let ghost mv = map_view(*old(m));
    let n = m.entries.len();
    let mut idx: usize = 0;
    while idx < n && str_lt(m.entries[idx].key.as_str(), key.as_str())
        invariant
            n == m.entries.len(),
            idx <= n,
            *m == *old(m),
            mv == map_view(*old(m)),
            forall|i: int| 0 <= i < idx ==> lex_lt(#[trigger] mv[i].0, key@),
        decreases n - idx,
    {
        proof {
            assert(mv[idx as int].0 == m.entries@[idx as int].key@);
        }
        idx = idx + 1;
    }
    proof {
        lemma_insert_skip(mv, key@, scalar_view(val), idx as int);
        if idx < n {
            assert(mv[idx as int] == (m.entries@[idx as int].key@, scalar_view(
                m.entries@[idx as int].val,
            )));
        }
    }
    if idx < n && str_eq(m.entries[idx].key.as_str(), key.as_str()) {
        let ghost tail = mv.skip(idx as int);
        proof {
            assert(tail[0] == mv[idx as int]);
            assert(tail[0].0 == key@);
        }
        m.entries.set(idx, MapEntry { key, val });
        proof {
            assert(tail.skip(1) =~= mv.skip(idx + 1));
            assert(spec_map_insert(tail, key@, scalar_view(val)) == seq![
                (key@, scalar_view(val)),
            ] + mv.skip(idx + 1));
            assert(map_view(*m) =~= mv.take(idx as int) + (seq![(key@, scalar_view(val))] + mv.skip(
                idx + 1,
            )));
        }
    } else {
        let ghost tail = mv.skip(idx as int);
        proof {
            if idx < n {
                assert(tail[0] == mv[idx as int]);
                assert(!lex_lt(tail[0].0, key@));
                lemma_lex_total(key@, tail[0].0);
            } else {
                assert(tail =~= Seq::<(Seq<char>, ScalarV)>::empty());
            }
        }
        m.entries.insert(idx, MapEntry { key, val });
        proof {
            if idx < n {
                assert(spec_map_insert(tail, key@, scalar_view(val)) == seq![
                    (key@, scalar_view(val)),
                ] + tail);
            } else {
                assert(spec_map_insert(tail, key@, scalar_view(val)) =~= seq![
                    (key@, scalar_view(val)),
                ]);
            }
            assert(map_view(*m) =~= mv.take(idx as int) + spec_map_insert(
                tail,
                key@,
                scalar_view(val),
            ));
        }
    }
}

} // verus!
