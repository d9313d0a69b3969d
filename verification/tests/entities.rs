use midata::connection::{MidataConnection, connection_with_application_token};
use midata::merge::{merge_option_if_needed, merge_option_vec_if_needed};
use midata::model::{Group, GroupLinks, Linked, Person, PersonLinks, Response, Role};
use midata::resolve::response_people_ok_exec;

fn person(id: &str) -> Person {
    Person {
        id: id.to_string(),
        href: None,
        first_name: None,
        last_name: None,
        nickname: None,
        company_name: None,
        company: false,
        email: None,
        gender: None,
        address: None,
        zip_code: None,
        town: None,
        country: None,
        household_key: None,
        picture: None,
        links: PersonLinks { primary_group: String::new(), roles: None },
        authentication_token: None,
        roles: vec![],
        is_loaded_fully: false,
        requested_by_group: 0,
        is_leiter: false,
    }
}

fn role(id: &str, role_type: &str) -> Role {
    Role {
        id: id.to_string(),
        role_type: role_type.to_string(),
        label: None,
        created_at: String::new(),
        updated_at: String::new(),
        deleted_at: None,
        links: None,
    }
}

fn group(id: &str) -> Group {
    Group {
        id: id.to_string(),
        href: None,
        group_type: String::new(),
        layer: None,
        name: String::new(),
        short_name: None,
        email: None,
        address: None,
        zip_code: None,
        town: None,
        country: None,
        pbs_shortname: None,
        website: None,
        bank_account: None,
        description: None,
        pta: None,
        vkp: None,
        pbs_material_insurance: None,
        links: None,
        hierarchies: None,
        children: vec![],
        is_loaded_fully: false,
        people: None,
    }
}

fn listed_person(id: &str, role_ref: &str) -> Person {
    let mut p = person(id);
    p.links.roles = Some(vec![role_ref.to_string()]);
    p
}

fn empty_response() -> Response {
    Response { people: None, groups: None, linked: None }
}

fn people_response(people: Vec<Person>, roles: Vec<Role>) -> Response {
    Response {
        people: Some(people),
        groups: None,
        linked: Some(Linked { groups: None, roles: Some(roles) }),
    }
}

fn login() -> MidataConnection {
    connection_with_application_token("XXX".to_string())
}

#[test]
fn load_group() {
    let mc = login();
    let res = mc.load_groups(vec![
        Response { people: None, groups: Some(vec![group("6497")]), linked: None },
        empty_response(),
    ]);
    for r in res {
        println!("{:?}", r);
    }
}

#[test]
fn load_persons_of_group() {
    let mc = login();
    let res = mc.load_people_of_groups(vec![(
        5763,
        people_response(vec![listed_person("11", "91")], vec![role("91", "Pfadi")]),
    )]);
    for r in res {
        println!("{:?}", r);
    }
}

#[test]
fn load_persons() {
    let mc = login();
    let mut p = listed_person("17773", "91");
    p.links.primary_group = "5763".to_string();
    let res = mc.load_people(vec![people_response(vec![p], vec![role("91", "Einheitsleiter")])]);
    for r in res {
        println!("{:?}", r);
    }
}

#[test]
fn load_steps() {
    let mc = login();
    let mut group_loaded = mc.load_group(Response {
        people: None,
        groups: Some(vec![group("6497")]),
        linked: None,
    });
    group_loaded.is_loaded_fully = false;
    group_loaded.load(group("6497"));
    assert!(group_loaded.is_loaded_fully);
    let people = group_loaded.get_persons(vec![listed_person("21", "91")]);
    let mut person_first = people[0].clone();
    person_first.load({
        let mut full = person("21");
        full.email = Some("someone@example.org".to_string());
        full
    });
    assert!(person_first.is_loaded_fully);
    assert_eq!(person_first.email.as_deref(), Some("someone@example.org"));
}

#[test]
fn person_has_household_key() {
    let mc = login();
    let mut p = listed_person("3967", "91");
    p.household_key = Some("household-a".to_string());
    let res = mc.load_person(people_response(vec![p], vec![role("91", "Pfadi")]));
    assert!(res.household_key.is_some());
}

#[test]
fn person_has_no_household_key() {
    let mc = login();
    let p = listed_person("57306", "91");
    let res = mc.load_person(people_response(vec![p], vec![role("91", "Pfadi")]));
    assert!(res.household_key.is_none());
}

#[test]
fn merge_fill_if_missing() {
    let mut base = person("5");
    let mut incoming = person("5");
    incoming.email = Some("a@x".to_string());
    base.merge_persons(incoming);
    assert_eq!(base.email.as_deref(), Some("a@x"));

    let mut base = person("5");
    base.email = Some("a@x".to_string());
    let mut incoming = person("5");
    incoming.email = Some("b@y".to_string());
    base.merge_persons(incoming);
    assert_eq!(base.email.as_deref(), Some("a@x"));
}

#[test]
fn merge_role_concatenation() {
    let mut base = person("5");
    base.roles = vec![role("1", "Pfadi")];
    let mut incoming = person("5");
    incoming.roles = vec![role("2", "Biber")];
    base.merge_persons(incoming);
    assert_eq!(base.roles.len(), 2);
    assert_eq!(base.roles[0].id, "1");
    assert_eq!(base.roles[1].id, "2");
}

#[test]
fn merge_boolean_or() {
    let mut base = person("5");
    base.is_loaded_fully = false;
    let mut incoming = person("5");
    incoming.is_loaded_fully = true;
    base.merge_persons(incoming);
    assert!(base.is_loaded_fully);
}

#[test]
fn merge_option_helpers() {
    let mut a: Option<u32> = None;
    merge_option_if_needed(&mut a, Some(4));
    assert_eq!(a, Some(4));
    let mut a = Some(1u32);
    merge_option_if_needed(&mut a, Some(4));
    assert_eq!(a, Some(1));

    assert_eq!(merge_option_vec_if_needed::<u32>(None, None), None);
    assert_eq!(merge_option_vec_if_needed(None, Some(vec![2u32])), Some(vec![2]));
    assert_eq!(merge_option_vec_if_needed(Some(vec![1u32]), None), Some(vec![1]));
    assert_eq!(merge_option_vec_if_needed(Some(vec![1u32]), Some(vec![2])), Some(vec![1, 2]));
}

#[test]
fn reference_resolution_drops_missing() {
    let mc = login();
    let mut g = group("6497");
    g.links = Some(GroupLinks {
        parent: String::new(),
        layer_group: String::new(),
        hierarchies: None,
        children: Some(vec!["100".to_string(), "200".to_string()]),
    });
    let response = Response {
        people: None,
        groups: Some(vec![g]),
        linked: Some(Linked { groups: Some(vec![group("100"), group("300")]), roles: None }),
    };
    let loaded = mc.load_group(response);
    assert!(loaded.is_loaded_fully);
    assert_eq!(loaded.children.len(), 1);
    assert_eq!(loaded.children[0].id, "100");
    assert!(!loaded.children[0].is_loaded_fully);
    assert_eq!(loaded.hierarchies.as_ref().unwrap().len(), 0);
}

#[test]
fn resolution_attaches_roles_in_order() {
    let mc = login();
    let mut p = person("9");
    p.links.roles = Some(vec!["7".to_string(), "missing".to_string(), "3".to_string()]);
    let res = mc.load_people(vec![people_response(
        vec![p],
        vec![role("3", "Biber"), role("7", "Einheitsleiter")],
    )]);
    assert_eq!(res.len(), 1);
    assert!(res[0].is_loaded_fully);
    assert_eq!(res[0].roles.len(), 2);
    assert_eq!(res[0].roles[0].id, "7");
    assert_eq!(res[0].roles[1].id, "3");
    // A "Biber" role is a participant role, so the person is no leader.
    assert!(!res[0].is_leiter);
}

#[test]
fn leader_classification() {
    let leader = {
        let mut p = person("1");
        p.roles = vec![role("1", "Einheitsleiter")];
        p
    };
    assert!(!leader.is_tn());
    let participant = {
        let mut p = person("2");
        p.roles = vec![role("2", "Wolf")];
        p
    };
    assert!(participant.is_tn());
}

#[test]
fn details_merge_end_to_end() {
    let mc = login();
    let first = person("5");
    let mut second = person("5");
    second.email = Some("x".to_string());
    let third = person("7");
    let out = mc.load_details_of_people(vec![first, second, third]);
    assert_eq!(out.len(), 2);
    assert_eq!(out[0].id, "5");
    assert_eq!(out[0].email.as_deref(), Some("x"));
    assert_eq!(out[1].id, "7");
}

#[test]
fn details_sorts_lexicographically() {
    let mc = login();
    let out = mc.load_details_of_people(vec![person("9"), person("10"), person("1")]);
    // Identifiers compare as strings: "1" < "10" < "9".
    assert_eq!(out.len(), 3);
    assert_eq!(out[0].id, "1");
    assert_eq!(out[1].id, "10");
    assert_eq!(out[2].id, "9");
}

#[test]
fn get_persons_uses_cached_members() {
    let mut g = group("8");
    g.people = Some(vec![person("2")]);
    let out = g.get_persons(vec![person("99")]);
    assert_eq!(out.len(), 1);
    assert_eq!(out[0].id, "2");
}

#[test]
fn get_persons_with_details_keeps_loaded_members() {
    let mut g = group("8");
    let mut loaded = person("2");
    loaded.is_loaded_fully = true;
    g.people = Some(vec![loaded, person("3")]);
    let mut detailed = person("3");
    detailed.is_loaded_fully = true;
    detailed.email = Some("third@example.org".to_string());
    let out = g.get_persons_with_details(vec![detailed]);
    assert_eq!(out.len(), 2);
    assert_eq!(out[0].id, "2");
    assert_eq!(out[1].id, "3");
    assert_eq!(out[1].email.as_deref(), Some("third@example.org"));
    assert_eq!(g.people.as_ref().unwrap().len(), 2);
}

#[test]
fn group_load_preserves_members() {
    let mut g = group("6497");
    g.people = Some(vec![person("2")]);
    let mut fetched = group("6497");
    fetched.name = "Pfadi Example".to_string();
    g.load(fetched);
    assert!(g.is_loaded_fully);
    assert_eq!(g.name, "Pfadi Example");
    assert_eq!(g.people.as_ref().unwrap().len(), 1);
}

#[test]
fn role_precondition_check() {
    let good = people_response(vec![listed_person("1", "91")], vec![role("91", "Pfadi")]);
    assert!(response_people_ok_exec(&good));
    // The referenced role is missing from the side-loaded table, so the
    // person resolves to no role at all.
    let bad = people_response(vec![listed_person("1", "92")], vec![role("91", "Pfadi")]);
    assert!(!response_people_ok_exec(&bad));
    assert!(response_people_ok_exec(&empty_response()));
}

#[test]
fn load_is_noop_when_fully_loaded() {
    let mut p = person("5");
    p.is_loaded_fully = true;
    p.email = Some("keep@example.org".to_string());
    let mut other = person("5");
    other.email = Some("other@example.org".to_string());
    p.load(other);
    assert_eq!(p.email.as_deref(), Some("keep@example.org"));
}
