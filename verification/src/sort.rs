//! Stable sorting of port records by ascending port number.
//!
//! The specification is insertion sort over the record model: each
//! record is inserted after every record whose port is not larger, so
//! records with equal ports keep their original relative order, as the
//! standard library's stable sort by key does.

use vstd::prelude::*;
use vstd::multiset::Multiset;

use crate::records::{PortInfo, PortRec, all_wf, rec_wf, sorted_by_port};

verus! {

/// Inserts `x` into the sorted sequence `s` after every record whose
/// port is less than or equal to `x.port`.
pub open spec fn spec_insert_by_port(s: Seq<PortRec>, x: PortRec) -> Seq<PortRec>
    decreases s.len(),
{
    if s.len() == 0 {
        seq![x]
    } else if s.last().port <= x.port {
        s.push(x)
    } else {
        spec_insert_by_port(s.drop_last(), x).push(s.last())
    }
}

/// Stable sort by port: insert the records one by one, in input order.
pub open spec fn spec_sort_by_port(s: Seq<PortRec>) -> Seq<PortRec>
    decreases s.len(),
{
    if s.len() == 0 {
        Seq::empty()
    } else {
        spec_insert_by_port(spec_sort_by_port(s.drop_last()), s.last())
    }
}

/// On a sorted sequence, inserting at the boundary position between the
/// ports not above `x.port` and those above it is exactly
/// [`spec_insert_by_port`].
pub proof fn lemma_insert_by_port_at(s: Seq<PortRec>, x: PortRec, pos: int)
    requires
        0 <= pos <= s.len(),
        forall|k: int| 0 <= k < pos ==> s[k].port <= x.port,
        forall|k: int| pos <= k < s.len() ==> s[k].port > x.port,
    ensures
        spec_insert_by_port(s, x) == s.insert(pos, x),
    decreases s.len(),
{
    if s.len() == 0 {
        assert(spec_insert_by_port(s, x) =~= s.insert(pos, x));
    } else if s.last().port <= x.port {
        assert(pos == s.len());
        assert(s.push(x) =~= s.insert(pos, x));
    } else {
        assert(pos < s.len());
        let t = s.drop_last();
        assert(forall|k: int| 0 <= k < pos ==> #[trigger] t[k].port <= x.port);
        assert(forall|k: int| pos <= k < t.len() ==> #[trigger] t[k].port > x.port);
        lemma_insert_by_port_at(t, x, pos);
        assert(t.insert(pos, x).push(s.last()) =~= s.insert(pos, x));
    }
}

/// Insertion preserves the multiset of records: sorting neither drops,
/// duplicates nor invents a record.
pub proof fn lemma_insert_by_port_multiset(s: Seq<PortRec>, x: PortRec)
    ensures
        spec_insert_by_port(s, x).to_multiset() == s.to_multiset().insert(x),
    decreases s.len(),
{
    broadcast use vstd::seq_lib::group_to_multiset_ensures;

    if s.len() == 0 {
        assert(seq![x] =~= Seq::<PortRec>::empty().push(x));
        assert(Seq::<PortRec>::empty().push(x).to_multiset() == Seq::<
            PortRec,
        >::empty().to_multiset().insert(x));
        assert(Seq::<PortRec>::empty().to_multiset() =~= Multiset::<PortRec>::empty());
        assert(spec_insert_by_port(s, x).to_multiset() =~= s.to_multiset().insert(x));
    } else if s.last().port <= x.port {
    } else {
        let t = s.drop_last();
        lemma_insert_by_port_multiset(t, x);
        assert(s =~= t.push(s.last()));
        assert(spec_insert_by_port(t, x).push(s.last()).to_multiset() == spec_insert_by_port(
            t,
            x,
        ).to_multiset().insert(s.last()));
        assert(t.to_multiset().insert(x).insert(s.last()) =~= t.to_multiset().insert(
            s.last(),
        ).insert(x));
    }
}

/// Sorting preserves the multiset of records.
pub proof fn lemma_sort_by_port_multiset(s: Seq<PortRec>)
    ensures
        spec_sort_by_port(s).to_multiset() == s.to_multiset(),
    decreases s.len(),
{
    broadcast use vstd::seq_lib::group_to_multiset_ensures;

    if s.len() > 0 {
        let t = s.drop_last();
        lemma_sort_by_port_multiset(t);
        lemma_insert_by_port_multiset(spec_sort_by_port(t), s.last());
        assert(s =~= t.push(s.last()));
    }
}

/// Insertion keeps every record well formed.
pub proof fn lemma_insert_by_port_all_wf(s: Seq<PortRec>, x: PortRec)
    requires
        all_wf(s),
        rec_wf(x),
    ensures
        all_wf(spec_insert_by_port(s, x)),
    decreases s.len(),
{
    if s.len() == 0 {
    } else if s.last().port <= x.port {
    } else {
        let t = s.drop_last();
        assert(forall|k: int| 0 <= k < t.len() ==> rec_wf(#[trigger] t[k]));
        lemma_insert_by_port_all_wf(t, x);
    }
}

/// Sorting keeps every record well formed.
pub proof fn lemma_sort_by_port_all_wf(s: Seq<PortRec>)
    requires
        all_wf(s),
    ensures
        all_wf(spec_sort_by_port(s)),
    decreases s.len(),
{
    if s.len() > 0 {
        let t = s.drop_last();
        assert(forall|k: int| 0 <= k < t.len() ==> rec_wf(#[trigger] t[k]));
        lemma_sort_by_port_all_wf(t);
        lemma_insert_by_port_all_wf(spec_sort_by_port(t), s.last());
    }
}

/// Sorts records by ascending port, stably: records with equal ports
/// keep their input order.
pub fn sort_records_by_port(recs: Vec<PortInfo>) -> (out: Vec<PortInfo>)
    ensures
        out.deep_view() == spec_sort_by_port(recs.deep_view()),
        sorted_by_port(out.deep_view()),
{
    let ghost model = recs.deep_view();
    let mut rest = recs;
    let mut out: Vec<PortInfo> = Vec::new();
    let ghost mut done: int = 0;
    proof {
        assert(out.deep_view() =~= spec_sort_by_port(model.take(0)));
        assert(rest.deep_view() =~= model.skip(0));
    }
    while rest.len() > 0
        invariant
            0 <= done <= model.len(),
            rest.deep_view() == model.skip(done),
            rest@.len() == model.len() - done,
            out.deep_view() == spec_sort_by_port(model.take(done)),
            sorted_by_port(out.deep_view()),
        decreases rest@.len(),
    {
        let ghost pre_rest = rest.deep_view();
        let ghost pre_vec = rest@;
        let x = rest.remove(0);
        proof {
            assert(pre_rest[0] == pre_vec[0].deep_view());
            assert(x.deep_view() == model.skip(done)[0]);
            assert(x.deep_view() == model[done]);
            assert forall|k: int| 0 <= k < rest.deep_view().len() implies rest.deep_view()[k]
                == model.skip(done + 1)[k] by {
                assert(rest.deep_view()[k] == rest@[k].deep_view());
                assert(rest@[k] == pre_vec[k + 1]);
                assert(pre_rest[k + 1] == pre_vec[k + 1].deep_view());
                assert(pre_rest[k + 1] == model.skip(done)[k + 1]);
            }
            assert(rest.deep_view() =~= model.skip(done + 1));
        }
        let mut pos = out.len();
        let ghost s = out.deep_view();
        loop
            invariant
                0 <= pos <= out@.len(),
                s == out.deep_view(),
                s.len() == out@.len(),
                sorted_by_port(s),
                forall|k: int| pos <= k < s.len() ==> s[k].port > x.port,
            ensures
                0 <= pos <= out@.len(),
                forall|k: int| pos <= k < s.len() ==> s[k].port > x.port,
                pos == 0 || s[pos - 1].port <= x.port,
            decreases pos,
        {
            if pos == 0 {
                break ;
            }
            if !(out[pos - 1].port > x.port) {
                break ;
            }
            proof {
                assert(s[pos - 1] == out@[pos - 1].deep_view());
            }
            pos = pos - 1;
        }
        proof {
            assert(forall|k: int| 0 <= k < pos ==> #[trigger] s[k].port <= s[pos - 1].port);
            lemma_insert_by_port_at(s, x.deep_view(), pos as int);
        }
        out.insert(pos, x);
        proof {
            assert(out.deep_view() =~= s.insert(pos as int, x.deep_view()));
            let s2 = out.deep_view();
            assert forall|a: int, b: int| 0 <= a < b < s2.len() implies s2[a].port <= s2[b].port by {
                assert(forall|k: int| 0 <= k < pos ==> s2[k] == #[trigger] s[k]);
                assert(s2[pos as int] == x.deep_view());
                assert(forall|k: int| pos < k < s2.len() ==> s2[k] == #[trigger] s[k - 1]);
            }
            assert(model.take(done + 1).drop_last() =~= model.take(done));
            assert(model.take(done + 1).last() == model[done]);
            done = done + 1;
        }
    }
    proof {
        assert(model.take(done) =~= model);
        assert(model == recs.deep_view());
    }
    out
}

} // verus!
