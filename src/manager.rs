use vstd::prelude::*;

use crate::error::DecodeError;
use crate::service::{
    Addr4, Backend, Frontend, backend_bytes, backend_of, frontend_bytes, frontend_of,
    BACKEND_SIZE, FRONTEND_SIZE,
};

verus! {

/// Well-known pinned path of the load balancer's frontend table.
pub const SERVICE_MAP_PATH: &'static str = "/sys/fs/bpf/tc/globals/cilium_lb4_services";

/// One service as listed: its address and its backends in the order the table walk met them.
pub struct Service {
    pub addr: Addr4,
    pub backends: Vec<(u16, Backend)>,
}

/// What adding a backend to a service comes to.
#[derive(Clone, Copy, Debug, PartialEq, Eq, Structural)]
pub enum AddPlan {
    /// A slave of the service already targets that backend: nothing is written.
    AlreadyPresent,
    /// Write the master slot, then the new slave slot with this index.
    Insert { slave: u16 },
    /// The service already uses the largest slave index; no new one can be given.
    Exhausted,
}

pub open spec fn addr_of(f: Frontend) -> Addr4 {
    Addr4 { ip: f.address, port: f.dport }
}

pub open spec fn target_of(b: Backend) -> Addr4 {
    Addr4 { ip: b.target, port: b.port }
}

/// The decoded form of a walked table.
pub open spec fn decoded(raw: Seq<(Vec<u8>, Vec<u8>)>) -> Seq<(Frontend, Backend)> {
    raw.map_values(|e: (Vec<u8>, Vec<u8>)| (frontend_of(e.0@), backend_of(e.1@)))
}

pub open spec fn record_sizes_ok(raw: Seq<(Vec<u8>, Vec<u8>)>) -> bool {
    forall|i: int|
        0 <= i < raw.len() ==> #[trigger] raw[i].0@.len() == FRONTEND_SIZE && raw[i].1@.len()
            == BACKEND_SIZE
}

/// Service addresses in the order of their first appearance.
pub open spec fn first_sight(s: Seq<(Frontend, Backend)>) -> Seq<Addr4>
    decreases s.len(),
{
    if s.len() == 0 {
        seq![]
    } else {
        let p = first_sight(s.drop_last());
        let a = addr_of(s.last().0);
        if p.contains(a) {
            p
        } else {
            p.push(a)
        }
    }
}

/// The (slave index, backend) pairs of service `a`, in walk order; the master slot is left out.
pub open spec fn slaves_of(s: Seq<(Frontend, Backend)>, a: Addr4) -> Seq<(u16, Backend)>
    decreases s.len(),
{
    if s.len() == 0 {
        seq![]
    } else {
        let p = slaves_of(s.drop_last(), a);
        let e = s.last();
        if addr_of(e.0) == a && e.0.slave > 0 {
            p.push((e.0.slave, e.1))
        } else {
            p
        }
    }
}

/// Every slot index of service `a` (master included), in walk order.
pub open spec fn ids_of(s: Seq<(Frontend, Backend)>, a: Addr4) -> Seq<u16>
    decreases s.len(),
{
    if s.len() == 0 {
        seq![]
    } else {
        let p = ids_of(s.drop_last(), a);
        if addr_of(s.last().0) == a {
            p.push(s.last().0.slave)
        } else {
            p
        }
    }
}

/// The largest slave index of service `a`, or 0 when it has none.
pub open spec fn max_slave(s: Seq<(Frontend, Backend)>, a: Addr4) -> u16
    decreases s.len(),
{
    if s.len() == 0 {
        0
    } else {
        let p = max_slave(s.drop_last(), a);
        let f = s.last().0;
        if addr_of(f) == a && f.slave > p {
            f.slave
        } else {
            p
        }
    }
}

pub open spec fn has_backend(s: Seq<(Frontend, Backend)>, a: Addr4, b: Addr4) -> bool {
    exists|i: int|
        0 <= i < s.len() && addr_of(#[trigger] s[i].0) == a && s[i].0.slave > 0 && target_of(
            s[i].1,
        ) == b
}

pub open spec fn add_plan_of(s: Seq<(Frontend, Backend)>, a: Addr4, b: Addr4) -> AddPlan {
    if has_backend(s, a, b) {
        AddPlan::AlreadyPresent
    } else if max_slave(s, a) == u16::MAX {
        AddPlan::Exhausted
    } else {
        AddPlan::Insert { slave: (max_slave(s, a) + 1) as u16 }
    }
}

pub open spec fn sorted(s: Seq<u16>) -> bool {
    forall|i: int, j: int| 0 <= i <= j < s.len() ==> s[i] <= s[j]
}

/// A walk `s` saw exactly the contents of table `t`.
pub open spec fn is_walk_of(s: Seq<(Frontend, Backend)>, t: Map<Frontend, Backend>) -> bool {
    &&& forall|i: int| 0 <= i < s.len() ==> #[trigger] t.contains_key(s[i].0) && t[s[i].0] == s[i].1
    &&& forall|k: Frontend| #[trigger] t.contains_key(k) ==> exists|i: int| 0 <= i < s.len() && s[i].0 == k
}

pub open spec fn slot(a: Addr4, id: u16) -> Frontend {
    Frontend { address: a.ip, dport: a.port, slave: id }
}

pub open spec fn empty_backend() -> Backend {
    Backend { target: 0, port: 0, count: 0, rev_nat_index: 0, weight: 0 }
}

pub open spec fn new_backend(b: Addr4) -> Backend {
    Backend { target: b.ip, port: b.port, count: 1, rev_nat_index: 0, weight: 0 }
}

/// The table after an insert of backend `b` as slave `id` of service `a`.
pub open spec fn after_add(t: Map<Frontend, Backend>, a: Addr4, b: Addr4, id: u16) -> Map<
    Frontend,
    Backend,
> {
    t.insert(slot(a, 0), empty_backend()).insert(slot(a, id), new_backend(b))
}

/// The table after deleting the slots `ids` of service `a`.
pub open spec fn after_delete(t: Map<Frontend, Backend>, a: Addr4, ids: Seq<u16>) -> Map<
    Frontend,
    Backend,
> {
    t.remove_keys(Set::new(|k: Frontend| addr_of(k) == a && ids.contains(k.slave)))
}

/// Decodes every walked record; fails on the first record of the wrong size.
pub fn decode_entries(raw: &Vec<(Vec<u8>, Vec<u8>)>) -> (r: Result<Vec<(Frontend, Backend)>, DecodeError>)
    ensures
        record_sizes_ok(raw@) <==> r is Ok,
        r matches Ok(v) ==> v@ == decoded(raw@),
        r matches Err(e) ==> exists|i: int|
            0 <= i < raw@.len() && (e == DecodeError::Length {
                expected: FRONTEND_SIZE,
                found: raw@[i].0.len(),
            } && raw@[i].0@.len() != FRONTEND_SIZE || e == DecodeError::Length {
                expected: BACKEND_SIZE,
                found: raw@[i].1.len(),
            } && raw@[i].1@.len() != BACKEND_SIZE),
{
    let mut out: Vec<(Frontend, Backend)> = Vec::new();
    let mut i: usize = 0;
    while i < raw.len()
        invariant
            i <= raw@.len(),
            record_sizes_ok(raw@.take(i as int)),
            out@ == decoded(raw@.take(i as int)),
        decreases raw@.len() - i,
    {
        let f = match Frontend::from_packed(raw[i].0.as_slice()) {
            Ok(f) => f,
            Err(e) => {
                return Err(e);
            },
        };
        let b = match Backend::from_packed(raw[i].1.as_slice()) {
            Ok(b) => b,
            Err(e) => {
                return Err(e);
            },
        };
        out.push((f, b));
        assert(raw@.take(i as int + 1) =~= raw@.take(i as int).push(raw@[i as int]));
        assert forall|k: int| 0 <= k < i + 1 implies #[trigger] raw@.take(i as int + 1)[k].0@.len()
            == FRONTEND_SIZE && raw@.take(i as int + 1)[k].1@.len() == BACKEND_SIZE by {
            if k < i {
                assert(raw@.take(i as int)[k] == raw@.take(i as int + 1)[k]);
            }
        }
        i += 1;
    }
    assert(raw@.take(i as int) =~= raw@);
    Ok(out)
}


/// Service addresses of a walk in the order they first appear.
pub fn service_addrs(entries: &Vec<(Frontend, Backend)>) -> (r: Vec<Addr4>)
    ensures
        r@ == first_sight(entries@),
{
    let mut out: Vec<Addr4> = Vec::new();
    let mut i: usize = 0;
    while i < entries.len()
        invariant
            i <= entries@.len(),
            out@ == first_sight(entries@.take(i as int)),
        decreases entries@.len() - i,
    {
        let a = entries[i].0.addr();
        let mut found = false;
        let mut j: usize = 0;
        while j < out.len()
            invariant
                j <= out@.len(),
                found <==> out@.take(j as int).contains(a),
            decreases out@.len() - j,
        {
            if out[j] == a {
                found = true;
            }
            proof {
                let p = out@.take(j as int);
                let q = out@.take(j as int + 1);
                assert(q =~= p.push(out@[j as int]));
                if q.contains(a) {
                    let k = choose|k: int| 0 <= k < q.len() && q[k] == a;
                    if k < j {
                        assert(p[k] == a);
                    }
                }
                if p.contains(a) {
                    let k = choose|k: int| 0 <= k < p.len() && p[k] == a;
                    assert(q[k] == a);
                }
                if out@[j as int] == a {
                    assert(q[j as int] == a);
                }
            }
            j += 1;
        }
        assert(out@.take(j as int) =~= out@);
        proof {
            let t = entries@.take(i as int + 1);
            assert(t.drop_last() =~= entries@.take(i as int));
            assert(t.last() == entries@[i as int]);
        }
        if !found {
            out.push(a);
        }
        i += 1;
    }
    assert(entries@.take(i as int) =~= entries@);
    out
}

/// The backends of service `a` with their slave indices, in walk order.
pub fn backends_of(entries: &Vec<(Frontend, Backend)>, a: Addr4) -> (r: Vec<(u16, Backend)>)
    ensures
        r@ == slaves_of(entries@, a),
{
    let mut out: Vec<(u16, Backend)> = Vec::new();
    let mut i: usize = 0;
    while i < entries.len()
        invariant
            i <= entries@.len(),
            out@ == slaves_of(entries@.take(i as int), a),
        decreases entries@.len() - i,
    {
        let f = entries[i].0;
        proof {
            let t = entries@.take(i as int + 1);
            assert(t.drop_last() =~= entries@.take(i as int));
            assert(t.last() == entries@[i as int]);
        }
        if f.addr() == a && f.slave > 0 {
            out.push((f.slave, entries[i].1));
        }
        i += 1;
    }
    assert(entries@.take(i as int) =~= entries@);
    out
}

/// Groups a walked table by service: one group per service address, in order of
/// first appearance, each with its slave slots; master slots mark a group but list nothing.
pub fn list_services(entries: &Vec<(Frontend, Backend)>) -> (r: Vec<Service>)
    ensures
        r@.len() == first_sight(entries@).len(),
        forall|i: int, j: int| 0 <= i < j < r@.len() ==> r@[i].addr != r@[j].addr,
        forall|i: int|
            0 <= i < entries@.len() ==> exists|k: int|
                0 <= k < r@.len() && r@[k].addr == addr_of(#[trigger] entries@[i].0),
        forall|k: int|
            0 <= k < r@.len() ==> exists|i: int|
                0 <= i < entries@.len() && addr_of(entries@[i].0) == (#[trigger] r@[k]).addr,
        forall|i: int|
            0 <= i < r@.len() ==> #[trigger] r@[i].addr == first_sight(entries@)[i]
                && r@[i].backends@ == slaves_of(entries@, r@[i].addr),
{
    let addrs = service_addrs(entries);
    let mut out: Vec<Service> = Vec::new();
    let mut i: usize = 0;
    while i < addrs.len()
        invariant
            i <= addrs@.len(),
            addrs@ == first_sight(entries@),
            out@.len() == i,
            forall|k: int|
                0 <= k < i ==> #[trigger] out@[k].addr == addrs@[k] && out@[k].backends@
                    == slaves_of(entries@, out@[k].addr),
        decreases addrs@.len() - i,
    {
        let a = addrs[i];
        let backends = backends_of(entries, a);
        out.push(Service { addr: a, backends });
        i += 1;
    }
    proof {
        lemma_first_sight(entries@);
        assert forall|k: int| 0 <= k < out@.len() implies exists|i: int|
            0 <= i < entries@.len() && addr_of(entries@[i].0) == (#[trigger] out@[k]).addr by {
            assert(first_sight(entries@)[k] == out@[k].addr);
            assert(first_sight(entries@).contains(out@[k].addr));
        }
        assert forall|i: int| 0 <= i < entries@.len() implies exists|k: int|
            0 <= k < out@.len() && out@[k].addr == addr_of(#[trigger] entries@[i].0) by {
            let a = addr_of(entries@[i].0);
            assert(first_sight(entries@).contains(a));
            let k = choose|k: int| 0 <= k < addrs@.len() && addrs@[k] == a;
            assert(out@[k].addr == a);
        }
    }
    out
}

/// Every slot index of service `a` (master included), in walk order.
pub fn slot_ids(entries: &Vec<(Frontend, Backend)>, a: Addr4) -> (r: Vec<u16>)
    ensures
        r@ == ids_of(entries@, a),
{
    let mut out: Vec<u16> = Vec::new();
    let mut i: usize = 0;
    while i < entries.len()
        invariant
            i <= entries@.len(),
            out@ == ids_of(entries@.take(i as int), a),
        decreases entries@.len() - i,
    {
        let f = entries[i].0;
        proof {
            let t = entries@.take(i as int + 1);
            assert(t.drop_last() =~= entries@.take(i as int));
            assert(t.last() == entries@[i as int]);
        }
        if f.addr() == a {
            out.push(f.slave);
        }
        i += 1;
    }
    assert(entries@.take(i as int) =~= entries@);
    out
}

/// Relies on `slice::sort`: the result is in ascending order and holds the same values.
#[verifier::external_body]
fn sort_ids(v: &mut Vec<u16>)
    ensures
        sorted(final(v)@),
        final(v)@.to_multiset() == old(v)@.to_multiset(),
{
    v.sort();
}

/// The slot indices to delete to remove service `a`, ascending so that the
/// master slot (index 0) goes last. Empty when the walk saw no slot of `a`.
pub fn plan_delete(entries: &Vec<(Frontend, Backend)>, a: Addr4) -> (r: Vec<u16>)
    ensures
        sorted(r@),
        r@.to_multiset() == ids_of(entries@, a).to_multiset(),
        r@.len() == 0 <==> forall|i: int|
            0 <= i < entries@.len() ==> addr_of(#[trigger] entries@[i].0) != a,
{
    let mut ids = slot_ids(entries, a);
    sort_ids(&mut ids);
    proof {
        ids@.to_multiset_ensures();
        ids_of(entries@, a).to_multiset_ensures();
        lemma_ids_of(entries@, a);
        if ids@.len() == 0 {
            assert(ids@.to_multiset().len() == 0);
            if ids_of(entries@, a).len() > 0 {
                assert(ids_of(entries@, a).to_multiset().count(ids_of(entries@, a)[0]) > 0);
            }
        } else {
            assert(ids@.to_multiset().count(ids@[0]) > 0);
            assert(ids_of(entries@, a).contains(ids@[0]));
        }
    }
    ids
}

/// Decides what adding backend `b` to service `a` does: nothing when a slave of `a`
/// already targets `b`, else an insert one past the largest slave index in use.
pub fn plan_add(entries: &Vec<(Frontend, Backend)>, a: Addr4, b: Addr4) -> (r: AddPlan)
    ensures
        r == add_plan_of(entries@, a, b),
{
    let mut max: u16 = 0;
    let mut i: usize = 0;
    while i < entries.len()
        invariant
            i <= entries@.len(),
            max == max_slave(entries@.take(i as int), a),
            !has_backend(entries@.take(i as int), a, b),
        decreases entries@.len() - i,
    {
        let f = entries[i].0;
        let t = entries[i].1;
        proof {
            let s = entries@.take(i as int + 1);
            assert(s.drop_last() =~= entries@.take(i as int));
            assert(s.last() == entries@[i as int]);
        }
        if f.addr() == a && f.slave > 0 {
            if t.target() == b {
                proof {
                    assert(entries@[i as int] == (f, t));
                    assert(has_backend(entries@, a, b));
                }
                return AddPlan::AlreadyPresent;
            }
        }
        if f.addr() == a && f.slave > max {
            max = f.slave;
        }
        proof {
            let s = entries@.take(i as int + 1);
            if has_backend(s, a, b) {
                let k = choose|k: int|
                    0 <= k < s.len() && addr_of(#[trigger] s[k].0) == a && s[k].0.slave > 0
                        && target_of(s[k].1) == b;
                if k < i {
                    assert(entries@.take(i as int)[k] == s[k]);
                }
            }
        }
        i += 1;
    }
    assert(entries@.take(i as int) =~= entries@);
    if max == u16::MAX {
        AddPlan::Exhausted
    } else {
        AddPlan::Insert { slave: max + 1 }
    }
}

/// The two writes of an insert, in the order they must reach the table: first the
/// master slot of `a` with the empty placeholder, then slave `id` with backend `b`.
pub fn add_records(a: Addr4, b: Addr4, id: u16) -> (r: Vec<(Vec<u8>, Vec<u8>)>)
    ensures
        r@.len() == 2,
        r@[0].0@ == frontend_bytes(slot(a, 0)),
        r@[0].1@ == backend_bytes(empty_backend()),
        r@[1].0@ == frontend_bytes(slot(a, id)),
        r@[1].1@ == backend_bytes(new_backend(b)),
{
    let mut fe = Frontend::new(a);
    let master = (fe.to_bytes(), Backend::empty().to_bytes());
    fe.slave(id);
    let member = (fe.to_bytes(), Backend::new(b, 1).to_bytes());
    let mut out: Vec<(Vec<u8>, Vec<u8>)> = Vec::new();
    out.push(master);
    out.push(member);
    out
}


proof fn lemma_max_slave_bound(s: Seq<(Frontend, Backend)>, a: Addr4)
    ensures
        forall|i: int|
            0 <= i < s.len() && addr_of(#[trigger] s[i].0) == a ==> s[i].0.slave <= max_slave(s, a),
    decreases s.len(),
{
    if s.len() > 0 {
        lemma_max_slave_bound(s.drop_last(), a);
        assert forall|i: int| 0 <= i < s.len() && addr_of(#[trigger] s[i].0) == a implies s[i].0.slave
            <= max_slave(s, a) by {
            if i < s.len() - 1 {
                assert(s.drop_last()[i] == s[i]);
            }
        }
    }
}

proof fn lemma_ids_of(s: Seq<(Frontend, Backend)>, a: Addr4)
    ensures
        forall|i: int|
            0 <= i < s.len() && addr_of(#[trigger] s[i].0) == a ==> ids_of(s, a).contains(
                s[i].0.slave,
            ),
        ids_of(s, a).len() > 0 ==> exists|i: int| 0 <= i < s.len() && addr_of(#[trigger] s[i].0) == a,
    decreases s.len(),
{
    if s.len() > 0 {
        let p = s.drop_last();
        lemma_ids_of(p, a);
        assert forall|i: int|
            0 <= i < s.len() && addr_of(#[trigger] s[i].0) == a implies ids_of(s, a).contains(
            s[i].0.slave,
        ) by {
            if i < s.len() - 1 {
                assert(p[i] == s[i]);
                let k = choose|k: int| 0 <= k < ids_of(p, a).len() && ids_of(p, a)[k] == s[i].0.slave;
                assert(ids_of(s, a)[k] == s[i].0.slave);
            } else {
                assert(ids_of(s, a).last() == s[i].0.slave);
            }
        }
        if ids_of(s, a).len() > 0 {
            if ids_of(p, a).len() > 0 {
                let i = choose|i: int| 0 <= i < p.len() && addr_of(#[trigger] p[i].0) == a;
                assert(s[i] == p[i]);
            } else {
                assert(addr_of(s[s.len() - 1].0) == a);
            }
        }
    }
}

/// Adding a backend that the service already has changes nothing: after the writes of an
/// insert of `b` as slave `id` of `a`, any walk of the resulting table finds `b` present.
/// When the insert was planned from a walk of `t`, `b` then stands in exactly one slave slot of `a`.
pub proof fn lemma_add_idempotent(
    t: Map<Frontend, Backend>,
    before: Seq<(Frontend, Backend)>,
    after: Seq<(Frontend, Backend)>,
    a: Addr4,
    b: Addr4,
    id: u16,
)
    requires
        is_walk_of(before, t),
        add_plan_of(before, a, b) == (AddPlan::Insert { slave: id }),
        is_walk_of(after, after_add(t, a, b, id)),
    ensures
        add_plan_of(after, a, b) == AddPlan::AlreadyPresent,
        forall|k: Frontend|
            #[trigger] after_add(t, a, b, id).contains_key(k) && addr_of(k) == a && k.slave > 0
                && target_of(after_add(t, a, b, id)[k]) == b ==> k == slot(a, id),
{
    let t2 = after_add(t, a, b, id);
    lemma_max_slave_bound(before, a);
    assert(id > 0);
    assert(t2.contains_key(slot(a, id)));
    let i = choose|i: int| 0 <= i < after.len() && after[i].0 == slot(a, id);
    assert(addr_of(after[i].0) == a && after[i].0.slave > 0 && target_of(after[i].1) == b);
    assert(has_backend(after, a, b));
    assert forall|k: Frontend|
        #[trigger] t2.contains_key(k) && addr_of(k) == a && k.slave > 0 && target_of(t2[k]) == b
            implies k == slot(a, id) by {
        if k != slot(a, id) {
            assert(k != slot(a, 0));
            assert(t.contains_key(k));
            let j = choose|j: int| 0 <= j < before.len() && before[j].0 == k;
            assert(addr_of(before[j].0) == a && before[j].0.slave > 0 && target_of(before[j].1) == b);
            assert(has_backend(before, a, b));
        }
    }
}

/// A new slave index lies above every index the service already uses.
pub proof fn lemma_add_ids_increase(s: Seq<(Frontend, Backend)>, a: Addr4, b: Addr4, id: u16)
    requires
        add_plan_of(s, a, b) == (AddPlan::Insert { slave: id }),
    ensures
        forall|i: int| 0 <= i < s.len() && addr_of(#[trigger] s[i].0) == a ==> s[i].0.slave < id,
{
    lemma_max_slave_bound(s, a);
}

/// The listed services are distinct, and are exactly the services that the walk saw.
pub proof fn lemma_first_sight(s: Seq<(Frontend, Backend)>)
    ensures
        first_sight(s).no_duplicates(),
        forall|x: Addr4|
            first_sight(s).contains(x) <==> exists|i: int|
                0 <= i < s.len() && addr_of(#[trigger] s[i].0) == x,
    decreases s.len(),
{
    if s.len() > 0 {
        let p = s.drop_last();
        lemma_first_sight(p);
        let a = addr_of(s.last().0);
        assert forall|x: Addr4|
            first_sight(s).contains(x) implies exists|i: int|
                0 <= i < s.len() && addr_of(#[trigger] s[i].0) == x by {
            if first_sight(p).contains(x) {
                let i = choose|i: int| 0 <= i < p.len() && addr_of(#[trigger] p[i].0) == x;
                assert(s[i] == p[i]);
            } else {
                let k = choose|k: int| 0 <= k < first_sight(s).len() && first_sight(s)[k] == x;
                assert(x == a);
                assert(addr_of(s[s.len() - 1].0) == x);
            }
        }
        assert forall|x: Addr4|
            (exists|i: int| 0 <= i < s.len() && addr_of(#[trigger] s[i].0) == x) implies first_sight(
            s,
        ).contains(x) by {
            let i = choose|i: int| 0 <= i < s.len() && addr_of(#[trigger] s[i].0) == x;
            if i < s.len() - 1 {
                assert(p[i] == s[i]);
                assert(first_sight(p).contains(x));
                let k = choose|k: int| 0 <= k < first_sight(p).len() && first_sight(p)[k] == x;
                assert(first_sight(s)[k] == x);
            } else if first_sight(p).contains(a) {
            } else {
                assert(first_sight(s).last() == a);
            }
        }
    }
}

/// Deleting the slots that a walk of `t` gives for service `a` leaves no slot of `a`,
/// so a listing of the table that results holds no group for `a`.
pub proof fn lemma_delete_clears_service(
    t: Map<Frontend, Backend>,
    s: Seq<(Frontend, Backend)>,
    a: Addr4,
    ids: Seq<u16>,
    after: Seq<(Frontend, Backend)>,
)
    requires
        is_walk_of(s, t),
        ids.to_multiset() == ids_of(s, a).to_multiset(),
        is_walk_of(after, after_delete(t, a, ids)),
    ensures
        forall|k: Frontend| #[trigger] after_delete(t, a, ids).contains_key(k) ==> addr_of(k) != a,
        !first_sight(after).contains(a),
{
    lemma_ids_of(s, a);
    ids.to_multiset_ensures();
    ids_of(s, a).to_multiset_ensures();
    assert forall|k: Frontend| #[trigger] after_delete(t, a, ids).contains_key(k) implies addr_of(k)
        != a by {
        if addr_of(k) == a {
            assert(t.contains_key(k));
            let i = choose|i: int| 0 <= i < s.len() && s[i].0 == k;
            assert(ids_of(s, a).contains(k.slave));
            assert(ids.to_multiset().count(k.slave) > 0);
            assert(ids.contains(k.slave));
        }
    }
    lemma_first_sight(after);
    if first_sight(after).contains(a) {
        let i = choose|i: int| 0 <= i < after.len() && addr_of(#[trigger] after[i].0) == a;
        assert(after_delete(t, a, ids).contains_key(after[i].0));
    }
}

} // verus!
