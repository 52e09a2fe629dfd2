use kerchief::resolve::{try_match_among, IdentifyErr, OwnedIdentifier};

fn cands(pairs: &[(u64, &str)]) -> Vec<OwnedIdentifier> {
    let mut v = Vec::new();
    for (id, name) in pairs {
        v.push(OwnedIdentifier::new(*id, (*name).to_string()));
    }
    v
}

#[test]
fn neither_field_fails_on_empty_list() {
    let cs = cands(&[]);
    let r = try_match_among(&cs, None, None);
    match r {
        Err(IdentifyErr::NotSpecified { alternatives }) => assert_eq!(alternatives.len(), 0),
        _ => panic!("expected NotSpecified"),
    }
}

#[test]
fn neither_field_fails_whatever_the_list() {
    let cs = cands(&[(1, "A"), (2, "B")]);
    let r = try_match_among(&cs, None, None);
    match r {
        Err(IdentifyErr::NotSpecified { alternatives }) => {
            assert_eq!(alternatives.len(), 2);
            assert_eq!(alternatives[0].id, 1);
            assert_eq!(alternatives[0].name, "A");
            assert_eq!(alternatives[1].id, 2);
            assert_eq!(alternatives[1].name, "B");
        }
        _ => panic!("expected NotSpecified"),
    }
}

#[test]
fn id_only_unique_match_wins() {
    let cs = cands(&[(1, "A"), (2, "B")]);
    let r = try_match_among(&cs, None, Some(2)).unwrap();
    assert_eq!(r.id, 2);
    assert_eq!(r.name, "B");
}

#[test]
fn id_only_no_match_is_no_such_id() {
    let cs = cands(&[(1, "A"), (2, "B")]);
    let r = try_match_among(&cs, None, Some(3));
    match r {
        Err(IdentifyErr::NoSuchId { id, alternatives }) => {
            assert_eq!(id, 3);
            assert_eq!(alternatives.len(), 2);
        }
        _ => panic!("expected NoSuchId"),
    }
}

#[test]
fn id_only_first_match_wins_on_duplicate_ids() {
    let cs = cands(&[(7, "first"), (7, "second")]);
    let r = try_match_among(&cs, None, Some(7)).unwrap();
    assert_eq!(r.name, "first");
}

#[test]
fn name_only_no_match_is_no_such_name() {
    let cs = cands(&[(1, "A")]);
    let name = String::from("Z");
    let r = try_match_among(&cs, Some(&name), None);
    match r {
        Err(IdentifyErr::NoSuchName { name, alternatives }) => {
            assert_eq!(name, "Z");
            assert_eq!(alternatives.len(), 1);
        }
        _ => panic!("expected NoSuchName"),
    }
}

#[test]
fn name_only_unique_match_wins() {
    let cs = cands(&[(1, "A"), (2, "B")]);
    let name = String::from("B");
    let r = try_match_among(&cs, Some(&name), None).unwrap();
    assert_eq!(r.id, 2);
}

#[test]
fn name_only_several_matches_are_under_specified() {
    let cs = cands(&[(1, "A"), (2, "A"), (3, "B")]);
    let name = String::from("A");
    let r = try_match_among(&cs, Some(&name), None);
    match r {
        Err(IdentifyErr::UnderSpecified { name, alternatives }) => {
            assert_eq!(name, "A");
            assert_eq!(alternatives.len(), 2);
            assert_eq!(alternatives[0].id, 1);
            assert_eq!(alternatives[1].id, 2);
        }
        _ => panic!("expected UnderSpecified"),
    }
}

#[test]
fn both_fields_name_mismatch_is_name_conflict() {
    let cs = cands(&[(1, "A"), (2, "B")]);
    let name = String::from("B");
    let r = try_match_among(&cs, Some(&name), Some(1));
    match r {
        Err(IdentifyErr::NameConflict { name, id, alternatives }) => {
            assert_eq!(name, "B");
            assert_eq!(id, 1);
            assert_eq!(alternatives.len(), 1);
            assert_eq!(alternatives[0].id, 1);
            assert_eq!(alternatives[0].name, "A");
        }
        _ => panic!("expected NameConflict"),
    }
}

#[test]
fn both_fields_id_mismatch_is_id_conflict() {
    let cs = cands(&[(1, "A"), (2, "B")]);
    let name = String::from("A");
    let r = try_match_among(&cs, Some(&name), Some(9));
    match r {
        Err(IdentifyErr::IdConflict { name, id, alternatives }) => {
            assert_eq!(name, "A");
            assert_eq!(id, 9);
            assert_eq!(alternatives.len(), 1);
            assert_eq!(alternatives[0].id, 1);
            assert_eq!(alternatives[0].name, "A");
        }
        _ => panic!("expected IdConflict"),
    }
}

#[test]
fn both_fields_id_match_takes_priority_over_name_match() {
    // The id matches one entity and the name another: the id wins the lookup
    // and its entity's differing name is reported as a conflict.
    let cs = cands(&[(1, "A"), (2, "B")]);
    let name = String::from("A");
    let r = try_match_among(&cs, Some(&name), Some(2));
    match r {
        Err(IdentifyErr::NameConflict { name, id, alternatives }) => {
            assert_eq!(name, "A");
            assert_eq!(id, 2);
            assert_eq!(alternatives.len(), 1);
            assert_eq!(alternatives[0].id, 2);
            assert_eq!(alternatives[0].name, "B");
        }
        _ => panic!("expected NameConflict"),
    }
}

#[test]
fn both_fields_nothing_matches_is_neither_name_nor_id() {
    let cs = cands(&[(1, "A"), (2, "B")]);
    let name = String::from("Z");
    let r = try_match_among(&cs, Some(&name), Some(9));
    match r {
        Err(IdentifyErr::NeitherNameNorId { name, id, alternatives }) => {
            assert_eq!(name, "Z");
            assert_eq!(id, 9);
            assert_eq!(alternatives.len(), 2);
        }
        _ => panic!("expected NeitherNameNorId"),
    }
}

#[test]
fn both_fields_agreeing_succeed() {
    let cs = cands(&[(1, "A")]);
    let name = String::from("A");
    let r = try_match_among(&cs, Some(&name), Some(1)).unwrap();
    assert_eq!(r.id, 1);
    assert_eq!(r.name, "A");
}

#[test]
fn resolve_is_idempotent() {
    let cs = cands(&[(1, "A"), (2, "B"), (3, "A")]);
    let name = String::from("A");
    let r1 = try_match_among(&cs, Some(&name), Some(3));
    let r2 = try_match_among(&cs, Some(&name), Some(3));
    match (r1, r2) {
        (Ok(a), Ok(b)) => {
            assert_eq!(a.id, b.id);
            assert_eq!(a.name, b.name);
        }
        _ => panic!("expected both resolutions to succeed identically"),
    }
    let e1 = try_match_among(&cs, Some(&name), Some(9));
    let e2 = try_match_among(&cs, Some(&name), Some(9));
    match (e1, e2) {
        (
            Err(IdentifyErr::IdConflict { name: n1, id: i1, alternatives: a1 }),
            Err(IdentifyErr::IdConflict { name: n2, id: i2, alternatives: a2 }),
        ) => {
            assert_eq!(n1, n2);
            assert_eq!(i1, i2);
            assert_eq!(a1.len(), a2.len());
        }
        _ => panic!("expected both resolutions to fail identically"),
    }
}
