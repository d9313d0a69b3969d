use midata::connection::{
    LoginCache, MidataConnection, connection_with_application_token, connection_with_login,
    connection_with_user_token, details_requests, login_form, login_url, member_detail_requests,
    token_from_login_response,
};
use midata::dispatch::{DedupCache, Request, chunk_len};
use midata::model::{Group, Linked, Person, PersonLinks, Response, Role};
use midata::strnum::{parse_u16, parse_u32, str_eq, str_le, u32_to_string};

fn person(id: &str) -> Person {
    Person {
        id: id.to_string(),
        href: None,
        first_name: None,
        last_name: None,
        nickname: None,
        company_name: None,
        company: false,
        email: None,
        gender: None,
        address: None,
        zip_code: None,
        town: None,
        country: None,
        household_key: None,
        picture: None,
        links: PersonLinks { primary_group: String::new(), roles: None },
        authentication_token: None,
        roles: vec![],
        is_loaded_fully: false,
        requested_by_group: 0,
        is_leiter: false,
    }
}

fn group(id: &str) -> Group {
    Group {
        id: id.to_string(),
        href: None,
        group_type: String::new(),
        layer: None,
        name: String::new(),
        short_name: None,
        email: None,
        address: None,
        zip_code: None,
        town: None,
        country: None,
        pbs_shortname: None,
        website: None,
        bank_account: None,
        description: None,
        pta: None,
        vkp: None,
        pbs_material_insurance: None,
        links: None,
        hierarchies: None,
        children: vec![],
        is_loaded_fully: false,
        people: None,
    }
}

fn marker_response(id: &str) -> Response {
    Response { people: None, groups: Some(vec![group(id)]), linked: None }
}

fn marker_of(r: &Response) -> String {
    r.groups.as_ref().unwrap()[0].id.clone()
}

#[test]
fn request_urls_are_exact() {
    assert_eq!(Request::Groups(6497).url(), "https://db.scout.ch/de/groups/6497");
    assert_eq!(Request::PeopleOfGroup(5763).url(), "https://db.scout.ch/de/groups/5763/people");
    assert_eq!(
        Request::People(5763, 17773).url(),
        "https://db.scout.ch/de/groups/5763/people/17773"
    );
}

#[test]
fn login_endpoint_is_exact() {
    assert_eq!(login_url(), "https://db.scout.ch/users/sign_in.json");
    let form = login_form("a@x".to_string(), "pw1".to_string());
    assert_eq!(form.len(), 2);
    assert_eq!(form[0].0, "person[email]");
    assert_eq!(form[0].1, "a@x");
    assert_eq!(form[1].0, "person[password]");
    assert_eq!(form[1].1, "pw1");
}

#[test]
fn auth_headers_for_both_credentials() {
    let app = connection_with_application_token("tok".to_string());
    let hs = app.auth_headers();
    assert_eq!(hs.len(), 2);
    assert_eq!(hs[0], ("X-Token".to_string(), "tok".to_string()));
    assert_eq!(hs[1], ("Accept".to_string(), "application/json".to_string()));

    let user = connection_with_user_token("a@x".to_string(), "utok".to_string());
    let hs = user.auth_headers();
    assert_eq!(hs.len(), 3);
    assert_eq!(hs[0], ("X-User-Token".to_string(), "utok".to_string()));
    assert_eq!(hs[1], ("X-User-Email".to_string(), "a@x".to_string()));
    assert_eq!(hs[2], ("Accept".to_string(), "application/json".to_string()));
}

#[test]
fn dispatch_order_invariance() {
    // Three descriptors; the fetched responses are handed over keyed by the
    // plan, so the assembled output order follows the input descriptors
    // whatever order the fetches completed in.
    let mut mc = connection_with_application_token("tok".to_string());
    let requests = vec![Request::Groups(1), Request::Groups(2), Request::Groups(3)];
    let n = chunk_len(requests.len(), 0);
    assert_eq!(n, 3);
    let plan = mc.plan_chunk(&requests, 0, n);
    assert_eq!(plan, requests);
    let fetched = vec![marker_response("a"), marker_response("b"), marker_response("c")];
    let out = mc.supply_chunk(&requests, &plan, &fetched);
    assert_eq!(out.len(), 3);
    assert_eq!(marker_of(&out[0]), "a");
    assert_eq!(marker_of(&out[1]), "b");
    assert_eq!(marker_of(&out[2]), "c");
}

#[test]
fn dedup_single_flight() {
    // Two identical descriptors in one chunk: the plan lists the descriptor
    // once, and both positions observe the same response value.
    let mut mc = connection_with_application_token("tok".to_string());
    let d = Request::People(6497, 3967);
    let requests = vec![d, d];
    let plan = mc.plan_chunk(&requests, 0, 2);
    assert_eq!(plan.len(), 1);
    assert_eq!(plan[0], d);
    let fetched = vec![marker_response("only")];
    let out = mc.supply_chunk(&requests, &plan, &fetched);
    assert_eq!(out.len(), 2);
    assert_eq!(marker_of(&out[0]), "only");
    assert_eq!(marker_of(&out[1]), "only");
}

#[test]
fn cache_hit_issues_no_fetch() {
    let mut mc = connection_with_application_token("tok".to_string());
    let d = Request::Groups(42);
    let requests = vec![d];
    let plan = mc.plan_chunk(&requests, 0, 1);
    assert_eq!(plan.len(), 1);
    let out = mc.supply_chunk(&requests, &plan, &vec![marker_response("cached")]);
    assert_eq!(marker_of(&out[0]), "cached");
    // Second dispatch of the same descriptor: the cache answers, the plan
    // is empty, and the response value is the cached one.
    let plan2 = mc.plan_chunk(&requests, 0, 1);
    assert_eq!(plan2.len(), 0);
    let out2 = mc.supply_chunk(&requests, &plan2, &vec![]);
    assert_eq!(out2.len(), 1);
    assert_eq!(marker_of(&out2[0]), "cached");
}

#[test]
fn chunking() {
    // 250 descriptors dispatch as three chunks of 100, 100 and 50.
    let total: usize = 250;
    let mut pos: usize = 0;
    let mut sizes: Vec<usize> = vec![];
    while pos < total {
        let n = chunk_len(total, pos);
        sizes.push(n);
        pos += n;
    }
    assert_eq!(sizes, vec![100, 100, 50]);
}

#[test]
fn dedup_cache_store_and_peek() {
    let mut cache = DedupCache::new();
    let d = Request::Groups(7);
    assert!(cache.peek(&d).is_none());
    cache.store(d, marker_response("seven"));
    assert_eq!(marker_of(&cache.peek(&d).unwrap()), "seven");
    // Storing again under the same key replaces the entry.
    cache.store(d, marker_response("seven-new"));
    assert_eq!(marker_of(&cache.peek(&d).unwrap()), "seven-new");
}

#[test]
fn dedup_cache_evicts_oldest_at_capacity() {
    let mut cache = DedupCache::new();
    for i in 0..1000u32 {
        cache.store(Request::People(1, i), marker_response("x"));
    }
    assert!(cache.peek(&Request::People(1, 0)).is_some());
    cache.store(Request::Groups(9), marker_response("y"));
    // The oldest entry left.
    assert!(cache.peek(&Request::People(1, 0)).is_none());
    assert!(cache.peek(&Request::People(1, 1)).is_some());
    assert!(cache.peek(&Request::Groups(9)).is_some());
}

#[test]
fn login_cache() {
    // Two logins with the same email and different passwords reuse the one
    // cached session token; no second exchange happens.
    let mut sessions = LoginCache::new();
    let mut exchanges = 0;

    // First login with password "pw1": a cache miss performs the exchange.
    let token1 = match sessions.lookup("a@x") {
        Some(t) => t,
        None => {
            exchanges += 1;
            let t = "session-token".to_string();
            sessions.store("a@x".to_string(), t.clone());
            t
        }
    };
    let c1 = connection_with_login("a@x".to_string(), token1.clone());

    // Second login with password "pw2": the cache answers.
    let token2 = match sessions.lookup("a@x") {
        Some(t) => t,
        None => {
            exchanges += 1;
            let t = "other-token".to_string();
            sessions.store("a@x".to_string(), t.clone());
            t
        }
    };
    let c2 = connection_with_login("a@x".to_string(), token2.clone());

    assert_eq!(exchanges, 1);
    assert_eq!(token1, token2);
    let h1 = c1.auth_headers();
    let h2 = c2.auth_headers();
    assert_eq!(h1, h2);
}

#[test]
fn login_token_extraction() {
    let mut p = person("1");
    p.authentication_token = Some("tok".to_string());
    let r = Response { people: Some(vec![p]), groups: None, linked: None };
    assert_eq!(token_from_login_response(&r).as_deref(), Some("tok"));

    let none = Response { people: Some(vec![person("1")]), groups: None, linked: None };
    assert!(token_from_login_response(&none).is_none());
    assert!(token_from_login_response(&Response { people: None, groups: None, linked: None })
        .is_none());
}

#[test]
fn numeric_parsing_and_formatting() {
    assert_eq!(u32_to_string(0), "0");
    assert_eq!(u32_to_string(17773), "17773");
    assert_eq!(u32_to_string(4294967295), "4294967295");
    assert_eq!(parse_u32("17773"), Some(17773));
    assert_eq!(parse_u32("0004"), Some(4));
    assert_eq!(parse_u32(""), None);
    assert_eq!(parse_u32("12a"), None);
    assert_eq!(parse_u32("4294967295"), Some(4294967295));
    assert_eq!(parse_u32("4294967296"), None);
    assert_eq!(parse_u16("6497"), Some(6497));
    assert_eq!(parse_u16("65536"), None);
}

#[test]
fn string_order_and_equality() {
    assert!(str_eq("abc", "abc"));
    assert!(!str_eq("abc", "abd"));
    assert!(str_le("10", "9"));
    assert!(str_le("5", "5"));
    assert!(!str_le("9", "10"));
}

#[test]
fn request_lists_for_details() {
    let mut a = person("17773");
    a.requested_by_group = 5763;
    let reqs = details_requests(&vec![a]).unwrap();
    assert_eq!(reqs, vec![Request::People(5763, 17773)]);
    assert!(details_requests(&vec![person("not-a-number")]).is_none());

    let mut done = person("1");
    done.is_loaded_fully = true;
    let todo = person("2");
    let reqs = member_detail_requests(&"6497".to_string(), &vec![done, todo]).unwrap();
    assert_eq!(reqs, vec![Request::People(6497, 2)]);
    assert!(member_detail_requests(&"xx".to_string(), &vec![]).is_none());
}
