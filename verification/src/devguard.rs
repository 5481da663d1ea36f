//! Busy-partition diagnostics: when exclusive access to the target
//! device cannot be asserted, the partitions in use are reported, sorted
//! by partition path, with their mountpoint, swap status and holders.
//! The enumeration itself is device I/O and lives with the driver; this
//! module sorts and renders what it found.

use vstd::prelude::*;
use vstd::multiset::Multiset;
use vstd::string::StringExecFns;
use crate::strutil::{lemma_str_le_total, lemma_str_le_trans, str_le, str_le_spec};

verus! {

/// One partition found busy: its device path, where it is mounted (if
/// anywhere), whether it is active as swap, and the processes or
/// identifiers holding it open. Computed on demand, purely diagnostic.
pub struct BusyPartitionInfo {
    pub path: String,
    pub mountpoint: Option<String>,
    pub swap: bool,
    pub holders: Vec<String>,
}

/// The partitions ordered by path, ascending.
pub open spec fn sorted_by_path(ps: Seq<BusyPartitionInfo>) -> bool {
    forall|i: int, j: int|
        0 <= i < j < ps.len() ==> str_le_spec(#[trigger] ps[i].path@, #[trigger] ps[j].path@)
}

/// Sort the busy partitions by partition path, ascending.
pub fn sort_busy_partitions(parts: Vec<BusyPartitionInfo>) -> (r: Vec<BusyPartitionInfo>)
    ensures
        r@.to_multiset() == parts@.to_multiset(),
        sorted_by_path(r@),
{
    broadcast use vstd::seq_lib::to_multiset_insert;
    broadcast use vstd::seq_lib::to_multiset_remove;
    broadcast use vstd::seq_lib::group_to_multiset_ensures;
    broadcast use vstd::multiset::lemma_multiset_empty_len;
    broadcast use vstd::multiset::group_multiset_axioms;

    let ghost orig = parts@;
    let mut input = parts;
    let mut out: Vec<BusyPartitionInfo> = Vec::new();
    proof {
        assert(out@.to_multiset().len() == 0);
        assert(out@.to_multiset() =~= Multiset::empty());
        assert(out@.to_multiset().add(input@.to_multiset()) =~= orig.to_multiset());
    }
    while input.len() > 0
        invariant
            out@.to_multiset().add(input@.to_multiset()) == orig.to_multiset(),
            sorted_by_path(out@),
        decreases input@.len(),
    {
        let ghost in0 = input@;
        let ghost out0 = out@;
        let item = input.remove(0);
        let mut idx: usize = 0;
        while idx < out.len() && str_le(out[idx].path.as_str(), item.path.as_str())
            invariant
                out@ == out0,
                idx <= out@.len(),
                forall|i: int| 0 <= i < idx ==> str_le_spec(#[trigger] out@[i].path@, item.path@),
            decreases out@.len() - idx,
        {
            idx = idx + 1;
        }
        proof {
            if idx < out@.len() {
                lemma_str_le_total(out@[idx as int].path@, item.path@);
            }
        }
        let ghost before = out@;
        out.insert(idx, item);
        proof {
            let a = out@;
            assert(a == before.insert(idx as int, item));
            assert forall|i: int, j: int| 0 <= i < j < a.len() implies str_le_spec(
                #[trigger] a[i].path@,
                #[trigger] a[j].path@,
            ) by {
                if i == idx && j > idx + 1 {
                    lemma_str_le_trans(item.path@, before[idx as int].path@, before[j - 1].path@);
                }
            }
            assert(in0[0] == item && 0 < in0.len());
            assert(in0.contains(item));
            vstd::seq_lib::to_multiset_insert(before, idx as int, item);
            vstd::seq_lib::to_multiset_remove(in0, 0);
            assert(out@.to_multiset() == before.to_multiset().insert(item));
            assert(input@.to_multiset() == in0.to_multiset().remove(item));
            vstd::seq_lib::to_multiset_contains(in0, item);
            assert(in0.to_multiset().count(item) > 0);
            assert(out@.to_multiset().add(input@.to_multiset()) =~= orig.to_multiset());
        }
    }
    proof {
        assert(input@.to_multiset().len() == 0);
        assert(input@.to_multiset() =~= Multiset::empty());
        assert(out@.to_multiset().add(input@.to_multiset()) =~= out@.to_multiset());
    }
    out
}

/// The report's header line.
pub open spec fn header_line(device: Seq<char>) -> Seq<char> {
    "Partitions in use on "@ + device + ":"@
}

/// The line reporting where a partition is mounted.
pub open spec fn mounted_line(path: Seq<char>, mp: Seq<char>) -> Seq<char> {
    "    "@ + path + " mounted on "@ + mp
}

/// The line reporting that a partition is an active swap device.
pub open spec fn swap_line(path: Seq<char>) -> Seq<char> {
    "    "@ + path + " is swap device"@
}

/// The line reporting one holder of a partition.
pub open spec fn holder_line(path: Seq<char>, h: Seq<char>) -> Seq<char> {
    "    "@ + path + " in use by "@ + h
}

/// One holder line per holder, in order.
pub open spec fn holder_lines(path: Seq<char>, hs: Seq<Seq<char>>) -> Seq<Seq<char>>
    decreases hs.len(),
{
    if hs.len() == 0 {
        Seq::empty()
    } else {
        seq![holder_line(path, hs[0])] + holder_lines(path, hs.drop_first())
    }
}

/// The lines one partition contributes: mountpoint if mounted, swap if
/// active, then its holders.
pub open spec fn part_lines(p: BusyPartitionInfo) -> Seq<Seq<char>> {
    (match p.mountpoint {
        Some(mp) => seq![mounted_line(p.path@, mp@)],
        None => Seq::empty(),
    }) + (if p.swap {
        seq![swap_line(p.path@)]
    } else {
        Seq::empty()
    }) + holder_lines(p.path@, p.holders.deep_view())
}

/// The lines of all partitions, in order.
pub open spec fn parts_lines(ps: Seq<BusyPartitionInfo>) -> Seq<Seq<char>>
    decreases ps.len(),
{
    if ps.len() == 0 {
        Seq::empty()
    } else {
        part_lines(ps[0]) + parts_lines(ps.drop_first())
    }
}

/// The whole report: nothing at all when no partition is busy, else the
/// header and each partition's lines.
pub open spec fn report_spec(device: Seq<char>, ps: Seq<BusyPartitionInfo>) -> Seq<Seq<char>> {
    if ps.len() == 0 {
        Seq::empty()
    } else {
        seq![header_line(device)] + parts_lines(ps)
    }
}

proof fn lemma_holder_lines_snoc(path: Seq<char>, hs: Seq<Seq<char>>, h: Seq<char>)
    ensures
        holder_lines(path, hs.push(h)) == holder_lines(path, hs).push(holder_line(path, h)),
    decreases hs.len(),
{
    let p = hs.push(h);
    if hs.len() == 0 {
        assert(p[0] == h);
        assert(p.drop_first() =~= Seq::<Seq<char>>::empty());
        assert(holder_lines(path, Seq::<Seq<char>>::empty()) == Seq::<Seq<char>>::empty());
        assert(seq![holder_line(path, h)] + Seq::<Seq<char>>::empty() =~= Seq::<Seq<
            char,
        >>::empty().push(holder_line(path, h)));
    } else {
        assert(p[0] == hs[0]);
        assert(p.drop_first() =~= hs.drop_first().push(h));
        lemma_holder_lines_snoc(path, hs.drop_first(), h);
        assert(seq![holder_line(path, hs[0])] + holder_lines(path, hs.drop_first()).push(
            holder_line(path, h),
        ) =~= (seq![holder_line(path, hs[0])] + holder_lines(path, hs.drop_first())).push(
            holder_line(path, h),
        ));
    }
}

proof fn lemma_parts_lines_snoc(ps: Seq<BusyPartitionInfo>, p: BusyPartitionInfo)
    ensures
        parts_lines(ps.push(p)) == parts_lines(ps) + part_lines(p),
    decreases ps.len(),
{
    let q = ps.push(p);
    if ps.len() == 0 {
        assert(q[0] == p);
        assert(q.drop_first() =~= Seq::<BusyPartitionInfo>::empty());
        assert(parts_lines(Seq::<BusyPartitionInfo>::empty()) == Seq::<Seq<char>>::empty());
        assert(part_lines(p) + Seq::<Seq<char>>::empty() =~= part_lines(p));
        assert(parts_lines(ps) + part_lines(p) =~= part_lines(p));
    } else {
        assert(q[0] == ps[0]);
        assert(q.drop_first() =~= ps.drop_first().push(p));
        lemma_parts_lines_snoc(ps.drop_first(), p);
        assert(part_lines(ps[0]) + (parts_lines(ps.drop_first()) + part_lines(p)) =~= (part_lines(
            ps[0],
        ) + parts_lines(ps.drop_first())) + part_lines(p));
    }
}

/// Render the busy-partition report for a device. The caller passes the
/// partitions already sorted; an empty list renders to no lines at all.
pub fn report_busy_partitions(device: &str, parts: &Vec<BusyPartitionInfo>) -> (r: Vec<String>)
    ensures
        r.deep_view() == report_spec(device@, parts@),
{
    let mut out: Vec<String> = Vec::new();
    if parts.len() == 0 {
        proof {
            assert(out.deep_view() =~= report_spec(device@, parts@));
        }
        return out;
    }
    let mut header = String::new();
    header.append("Partitions in use on ");
    header.append(device);
    header.append(":");
    proof {
        assert(Seq::<char>::empty() + "Partitions in use on "@ + device@ + ":"@ =~= header_line(
            device@,
        ));
    }
    out.push(header);
    proof {
        assert(parts@.take(0) =~= Seq::<BusyPartitionInfo>::empty());
        assert(out.deep_view() =~= seq![header_line(device@)] + parts_lines(parts@.take(0)));
    }
    let mut i: usize = 0;
    while i < parts.len()
        invariant
            i <= parts@.len(),
            parts@.len() > 0,
            out.deep_view() == seq![header_line(device@)] + parts_lines(parts@.take(i as int)),
        decreases parts@.len() - i,
    {
        let p = &parts[i];
        let ghost plines_before = parts_lines(parts@.take(i as int));
        let ghost base = seq![header_line(device@)] + plines_before;
        let ghost hs = p.holders.deep_view();
        match &p.mountpoint {
            Some(mp) => {
                let mut line = String::new();
                line.append("    ");
                line.append(p.path.as_str());
                line.append(" mounted on ");
                line.append(mp.as_str());
                proof {
                    assert(Seq::<char>::empty() + "    "@ + p.path@ + " mounted on "@ + mp@
                        =~= mounted_line(p.path@, mp@));
                }
                out.push(line);
            },
            None => {},
        }
        if p.swap {
            let mut line = String::new();
            line.append("    ");
            line.append(p.path.as_str());
            line.append(" is swap device");
            proof {
                assert(Seq::<char>::empty() + "    "@ + p.path@ + " is swap device"@ =~= swap_line(
                    p.path@,
                ));
            }
            out.push(line);
        }
        let ghost mid = base + (match &p.mountpoint {
            Some(mp) => seq![mounted_line(p.path@, mp@)],
            None => Seq::<Seq<char>>::empty(),
        }) + (if p.swap {
            seq![swap_line(p.path@)]
        } else {
            Seq::<Seq<char>>::empty()
        });
        proof {
            assert(out.deep_view() =~= mid);
            assert(hs.take(0) =~= Seq::<Seq<char>>::empty());
            assert(holder_lines(p.path@, hs.take(0)) == Seq::<Seq<char>>::empty());
            assert(out.deep_view() =~= mid + holder_lines(p.path@, hs.take(0)));
        }
        let mut hi: usize = 0;
        while hi < p.holders.len()
            invariant
                hi <= p.holders@.len(),
                hs == p.holders.deep_view(),
                hs.len() == p.holders@.len(),
                out.deep_view() == mid + holder_lines(p.path@, hs.take(hi as int)),
            decreases p.holders@.len() - hi,
        {
            let mut line = String::new();
            line.append("    ");
            line.append(p.path.as_str());
            line.append(" in use by ");
            line.append(p.holders[hi].as_str());
            proof {
                assert(p.holders@[hi as int]@ == hs[hi as int]);
                assert(Seq::<char>::empty() + "    "@ + p.path@ + " in use by "@ + hs[hi as int]
                    =~= holder_line(p.path@, hs[hi as int]));
            }
            let ghost prev = out.deep_view();
            out.push(line);
            proof {
                assert(out.deep_view() =~= prev.push(holder_line(p.path@, hs[hi as int])));
                lemma_holder_lines_snoc(p.path@, hs.take(hi as int), hs[hi as int]);
                assert(hs.take(hi as int).push(hs[hi as int]) =~= hs.take(hi + 1));
                assert(mid + holder_lines(p.path@, hs.take(hi as int)).push(
                    holder_line(p.path@, hs[hi as int]),
                ) =~= (mid + holder_lines(p.path@, hs.take(hi as int))).push(
                    holder_line(p.path@, hs[hi as int]),
                ));
                assert(out.deep_view() =~= mid + holder_lines(p.path@, hs.take(hi + 1)));
            }
            hi = hi + 1;
        }
        proof {
            assert(hs.take(p.holders@.len() as int) =~= hs);
            lemma_parts_lines_snoc(parts@.take(i as int), parts@[i as int]);
            assert(parts@.take(i as int).push(parts@[i as int]) =~= parts@.take(i + 1));
            assert(out.deep_view() =~= seq![header_line(device@)] + parts_lines(
                parts@.take(i + 1),
            ));
        }
        i = i + 1;
    }
    proof {
        assert(parts@.take(parts@.len() as int) =~= parts@);
    }
    out
}

} // verus!
