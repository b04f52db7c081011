use cilium_lb::manager::{
    add_records, backends_of, decode_entries, list_services, plan_add, plan_delete, service_addrs,
    slot_ids, AddPlan,
};
use cilium_lb::service::{BACKEND_SIZE, FRONTEND_SIZE};
use cilium_lb::{Addr4, Backend, DecodeError, Frontend, MemMap};

fn addr(a: u8, b: u8, c: u8, d: u8, port: u16) -> Addr4 {
    Addr4::from_octets(a, b, c, d, port)
}

fn show(a: Addr4) -> String {
    let o = a.octets();
    format!("{}.{}.{}.{}:{}", o[0], o[1], o[2], o[3], a.port)
}

fn table() -> MemMap {
    MemMap::new(FRONTEND_SIZE, BACKEND_SIZE, 1024)
}

fn entries(t: &MemMap) -> Vec<(Frontend, Backend)> {
    decode_entries(&t.walk().unwrap()).unwrap()
}

fn add(t: &mut MemMap, service: Addr4, backend: Addr4) -> AddPlan {
    let plan = plan_add(&entries(t), service, backend);
    if let AddPlan::Insert { slave } = plan {
        for (k, v) in add_records(service, backend, slave) {
            t.update(&k, &v).unwrap();
        }
    }
    plan
}

fn del(t: &mut MemMap, service: Addr4) -> Vec<u16> {
    let ids = plan_delete(&entries(t), service);
    for &id in &ids {
        let mut f = Frontend::new(service);
        f.slave(id);
        t.delete(&f.to_bytes()).unwrap();
    }
    ids
}

fn list(t: &MemMap) -> Vec<String> {
    let mut out = Vec::new();
    for s in list_services(&entries(t)) {
        out.push(format!("{} ->", show(s.addr)));
        for (id, b) in &s.backends {
            out.push(format!("({}) {}", id, show(b.target())));
        }
    }
    out
}

fn slot(service: Addr4, id: u16, b: Backend) -> (Frontend, Backend) {
    let mut f = Frontend::new(service);
    f.slave(id);
    (f, b)
}

#[test]
fn end_to_end_add_list_delete() {
    let mut t = table();
    let svc = addr(10, 0, 0, 1, 80);
    assert_eq!(add(&mut t, svc, addr(10, 0, 1, 5, 8080)), AddPlan::Insert { slave: 1 });
    assert_eq!(list(&t), vec!["10.0.0.1:80 ->", "(1) 10.0.1.5:8080"]);
    assert_eq!(add(&mut t, svc, addr(10, 0, 1, 6, 8080)), AddPlan::Insert { slave: 2 });
    assert_eq!(
        list(&t),
        vec!["10.0.0.1:80 ->", "(1) 10.0.1.5:8080", "(2) 10.0.1.6:8080"]
    );
    assert_eq!(del(&mut t, svc), vec![0, 1, 2]);
    assert!(list(&t).is_empty());
    assert_eq!(t.walk(), Ok(vec![]));
}

#[test]
fn adding_twice_keeps_one_slave() {
    let mut t = table();
    let svc = addr(10, 0, 0, 1, 80);
    let be = addr(10, 0, 1, 5, 8080);
    assert_eq!(add(&mut t, svc, be), AddPlan::Insert { slave: 1 });
    assert_eq!(add(&mut t, svc, be), AddPlan::AlreadyPresent);
    let e = entries(&t);
    assert_eq!(backends_of(&e, svc).len(), 1);
    assert_eq!(e.len(), 2);
}

#[test]
fn ids_count_up_from_one() {
    let mut t = table();
    let svc = addr(10, 0, 0, 1, 80);
    assert_eq!(add(&mut t, svc, addr(10, 0, 1, 7, 80)), AddPlan::Insert { slave: 1 });
    assert_eq!(add(&mut t, svc, addr(10, 0, 1, 5, 80)), AddPlan::Insert { slave: 2 });
    assert_eq!(add(&mut t, svc, addr(10, 0, 1, 6, 80)), AddPlan::Insert { slave: 3 });
    let ids: Vec<u16> = backends_of(&entries(&t), svc).iter().map(|p| p.0).collect();
    assert_eq!(ids, vec![1, 2, 3]);
}

#[test]
fn next_id_is_one_past_the_largest() {
    let svc = addr(10, 0, 0, 1, 80);
    let e = vec![
        slot(svc, 0, Backend::empty()),
        slot(svc, 1, Backend::new(addr(10, 0, 1, 1, 80), 1)),
        slot(svc, 3, Backend::new(addr(10, 0, 1, 3, 80), 1)),
    ];
    assert_eq!(plan_add(&e, svc, addr(10, 0, 1, 9, 80)), AddPlan::Insert { slave: 4 });
    assert_eq!(plan_add(&e, svc, addr(10, 0, 1, 3, 80)), AddPlan::AlreadyPresent);
    assert_eq!(plan_add(&e, addr(10, 0, 0, 2, 80), addr(10, 0, 1, 3, 80)), AddPlan::Insert { slave: 1 });
}

#[test]
fn master_slot_target_does_not_count_as_present() {
    let svc = addr(10, 0, 0, 1, 80);
    let e = vec![slot(svc, 0, Backend::empty())];
    assert_eq!(plan_add(&e, svc, addr(0, 0, 0, 0, 0)), AddPlan::Insert { slave: 1 });
}

#[test]
fn largest_slave_index_is_exhausted() {
    let svc = addr(10, 0, 0, 1, 80);
    let e = vec![slot(svc, 65535, Backend::new(addr(10, 0, 1, 1, 80), 1))];
    assert_eq!(plan_add(&e, svc, addr(10, 0, 1, 2, 80)), AddPlan::Exhausted);
}

#[test]
fn add_writes_master_then_slave() {
    let svc = addr(10, 0, 0, 1, 80);
    let w = add_records(svc, addr(10, 0, 1, 5, 8080), 4);
    assert_eq!(w.len(), 2);
    assert_eq!(w[0].0, vec![10, 0, 0, 1, 0, 80, 0, 0]);
    assert_eq!(w[0].1, vec![0; 12]);
    assert_eq!(w[1].0, vec![10, 0, 0, 1, 0, 80, 4, 0]);
    assert_eq!(w[1].1, vec![10, 0, 1, 5, 0x1f, 0x90, 1, 0, 0, 0, 0, 0]);
}

#[test]
fn delete_unknown_service_plans_nothing() {
    let mut t = table();
    add(&mut t, addr(10, 0, 0, 1, 80), addr(10, 0, 1, 5, 8080));
    let before = t.walk().unwrap();
    assert_eq!(del(&mut t, addr(10, 0, 0, 9, 80)), Vec::<u16>::new());
    assert_eq!(t.walk().unwrap(), before);
}

#[test]
fn delete_ids_ascending() {
    let svc = addr(10, 0, 0, 1, 80);
    let other = addr(10, 0, 0, 2, 80);
    let e = vec![
        slot(svc, 2, Backend::empty()),
        slot(other, 1, Backend::empty()),
        slot(svc, 0, Backend::empty()),
        slot(svc, 1, Backend::empty()),
    ];
    assert_eq!(slot_ids(&e, svc), vec![2, 0, 1]);
    assert_eq!(plan_delete(&e, svc), vec![0, 1, 2]);
    assert_eq!(plan_delete(&e, other), vec![1]);
}

#[test]
fn delete_leaves_other_services() {
    let mut t = table();
    let a = addr(10, 0, 0, 1, 80);
    let b = addr(10, 0, 0, 2, 443);
    add(&mut t, a, addr(10, 0, 1, 5, 8080));
    add(&mut t, b, addr(10, 0, 2, 5, 8443));
    add(&mut t, a, addr(10, 0, 1, 6, 8080));
    del(&mut t, a);
    assert_eq!(list(&t), vec!["10.0.0.2:443 ->", "(1) 10.0.2.5:8443"]);
}

#[test]
fn grouping_follows_first_sight() {
    let a = addr(10, 0, 0, 1, 80);
    let b = addr(10, 0, 0, 2, 80);
    let ba = Backend::new(addr(1, 1, 1, 1, 1), 1);
    let bb = Backend::new(addr(2, 2, 2, 2, 2), 1);
    let e = vec![slot(b, 2, bb), slot(a, 0, Backend::empty()), slot(b, 1, ba), slot(a, 5, ba)];
    assert_eq!(service_addrs(&e), vec![b, a]);
    let groups = list_services(&e);
    assert_eq!(groups.len(), 2);
    assert_eq!(groups[0].addr, b);
    assert_eq!(groups[0].backends, vec![(2, bb), (1, ba)]);
    assert_eq!(groups[1].addr, a);
    assert_eq!(groups[1].backends, vec![(5, ba)]);
}

#[test]
fn decoding_refuses_wrong_sizes() {
    let raw = vec![(vec![0u8; 8], vec![0u8; 12]), (vec![0u8; 8], vec![0u8; 10])];
    assert_eq!(
        decode_entries(&raw).err(),
        Some(DecodeError::Length { expected: 12, found: 10 })
    );
    let raw = vec![(vec![10, 0, 0, 1, 0, 80, 1, 0], vec![10, 0, 1, 5, 0x1f, 0x90, 1, 0, 0, 0, 0, 0])];
    let e = decode_entries(&raw).unwrap();
    assert_eq!(e[0].0.addr(), addr(10, 0, 0, 1, 80));
    assert_eq!(e[0].0.slave, 1);
    assert_eq!(e[0].1.target(), addr(10, 0, 1, 5, 8080));
}
