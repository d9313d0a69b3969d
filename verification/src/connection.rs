//! The connection façade: credential handling, the login cache, request
//! headers, and the public load operations that turn decoded responses into
//! resolved entities. The transport performs the network calls and hands the
//! decoded responses in; every decision about them is made and proved here.

use vstd::prelude::*;

use crate::details::{fold_adjacent_by_id, sort_people_by_id, spec_load_details};
use crate::dispatch::{DedupCache, Request, dispatch_plan, dispatch_supply, spec_plan};
use crate::model::{
    Group, GroupView, Person, PersonView, Response, ResponseView, Token, TokenView, groups_view,
    persons_view, responses_view,
};
use crate::resolve::{
    response_groups, response_into_groups, response_into_people, response_people,
    response_people_ok,
};
use crate::strnum::{all_dec_digits, dec_val, parse_u16, parse_u32, str_eq};

verus! {

/// A connection to the directory service: the active credential and the
/// per-connection response cache.
pub struct MidataConnection {
    pub token: Token,
    pub cache: DedupCache,
}

/// Authenticates with an application token. Such a connection does not see
/// every detail of groups and people.
pub fn connection_with_application_token(token: String) -> (c: MidataConnection)
    ensures
        c.token@ == TokenView::XToken(token@),
        c.cache.wf(),
        c.cache@.len() == 0,
{
    MidataConnection { token: Token::XToken(token), cache: DedupCache::new() }
}

/// Builds a connection for a user whose session token is already known.
pub fn connection_with_user_token(email: String, token: String) -> (c: MidataConnection)
    ensures
        c.token@ == TokenView::XUserToken(email@, token@),
        c.cache.wf(),
        c.cache@.len() == 0,
{
    MidataConnection { token: Token::XUserToken(email, token), cache: DedupCache::new() }
}

/// Builds a connection after a sign-in exchange: `token` is the session
/// token obtained for `email`, from the exchange or from the login cache.
/// The exchange itself is the transport collaborator's work.
pub fn connection_with_login(email: String, token: String) -> (c: MidataConnection)
    ensures
        c.token@ == TokenView::XUserToken(email@, token@),
        c.cache.wf(),
        c.cache@.len() == 0,
{
    MidataConnection { token: Token::XUserToken(email, token), cache: DedupCache::new() }
}

/// The login cache: a single entry keyed by email alone. A second login
/// with the same email reuses the cached session token, whatever password
/// was offered.
pub struct LoginCache {
    pub entry: Option<(String, String)>,
}

impl LoginCache {
    /// An empty login cache.
    pub fn new() -> (c: LoginCache)
        ensures
            c.entry is None,
    {
        LoginCache { entry: None }
    }

    /// The cached session token for an email. The password plays no part in
    /// the lookup.
    pub fn lookup(&self, email: &str) -> (r: Option<String>)
        ensures
            r is Some <==> (self.entry is Some && self.entry.unwrap().0@ == email@),
            r is Some ==> r.unwrap() == self.entry.unwrap().1,
    {
        match &self.entry {
            Some(e) => {
                if str_eq(e.0.as_str(), email) {
                    Some(e.1.clone())
                } else {
                    None
                }
            },
            None => None,
        }
    }

    /// Stores the session token obtained for an email, replacing the one
    /// entry.
    pub fn store(&mut self, email: String, token: String)
        ensures
            final(self).entry == Some((email, token)),
    {
        self.entry = Some((email, token));
    }
}

/// The sign-in endpoint.
pub fn login_url() -> (r: String)
    ensures
        r@ == "https://db.scout.ch/users/sign_in.json"@,
{
    String::from_str("https://db.scout.ch/users/sign_in.json")
}

/// The form fields of a sign-in request.
pub fn login_form(email: String, password: String) -> (r: Vec<(String, String)>)
    ensures
        r@.len() == 2,
        r@[0].0@ == "person[email]"@,
        r@[0].1 == email,
        r@[1].0@ == "person[password]"@,
        r@[1].1 == password,
{
    let mut v: Vec<(String, String)> = Vec::new();
    v.push((String::from_str("person[email]"), email));
    v.push((String::from_str("person[password]"), password));
    v
}

/// The session token carried by a sign-in response: the authentication
/// token of the last person listed.
pub open spec fn spec_login_token(r: ResponseView) -> Option<Seq<char>> {
    if r.people is Some && r.people.unwrap().len() > 0 {
        r.people.unwrap().last().authentication_token
    } else {
        None
    }
}

/// Extracts the session token from a sign-in response. `None` is an
/// authentication failure: the exchange succeeded at the transport level
/// but returned no token.
pub fn token_from_login_response(r: &Response) -> (t: Option<String>)
    ensures
        t is Some <==> spec_login_token(r@) is Some,
        t is Some ==> t.unwrap()@ == spec_login_token(r@).unwrap(),
{
    match &r.people {
        Some(ps) => {
            if ps.len() > 0 {
                proof {
                    assert(r@.people.unwrap().last() == ps@[ps@.len() - 1]@);
                }
                match &ps[ps.len() - 1].authentication_token {
                    Some(t) => Some(t.clone()),
                    None => None,
                }
            } else {
                None
            }
        },
        None => None,
    }
}

impl MidataConnection {
    /// The headers sent with every resource call: the credential header or
    /// headers, then the JSON accept header.
    pub fn auth_headers(&self) -> (hs: Vec<(String, String)>)
        ensures
            match self.token@ {
                TokenView::XToken(t) => {
                    &&& hs@.len() == 2
                    &&& hs@[0].0@ == "X-Token"@ && hs@[0].1@ == t
                    &&& hs@[1].0@ == "Accept"@ && hs@[1].1@ == "application/json"@
                },
                TokenView::XUserToken(email, t) => {
                    &&& hs@.len() == 3
                    &&& hs@[0].0@ == "X-User-Token"@ && hs@[0].1@ == t
                    &&& hs@[1].0@ == "X-User-Email"@ && hs@[1].1@ == email
                    &&& hs@[2].0@ == "Accept"@ && hs@[2].1@ == "application/json"@
                },
            },
    {
        let mut hs: Vec<(String, String)> = Vec::new();
        match &self.token {
            Token::XToken(t) => {
                hs.push((String::from_str("X-Token"), t.clone()));
            },
            Token::XUserToken(email, t) => {
                hs.push((String::from_str("X-User-Token"), t.clone()));
                hs.push((String::from_str("X-User-Email"), email.clone()));
            },
        }
        hs.push((String::from_str("Accept"), String::from_str("application/json")));
        hs
    }

    /// The fetch plan for the chunk of `requests` that starts at `pos`:
    /// the chunk's distinct cache misses, each exactly once. `len` must be
    /// the chunk length at `pos`: full width, or the remainder at the end.
    pub fn plan_chunk(&self, requests: &Vec<Request>, pos: usize, len: usize) -> (plan: Vec<
        Request,
    >)
        requires
            pos <= requests@.len(),
            len as int == crate::dispatch::spec_chunk_len(requests@.len() as int, pos as int),
        ensures
            plan@ == spec_plan(self.cache@, requests@.subrange(pos as int, pos as int + len as int)),
    {
        let n = requests.len();
        let mut chunk: Vec<Request> = Vec::new();
        let mut i: usize = 0;
        while i < len
            invariant
                i <= len,
                pos + len <= n,
                n == requests@.len(),
                chunk@ == requests@.subrange(pos as int, pos as int + i as int),
            decreases len - i,
        {
            chunk.push(requests[pos + i]);
            proof {
                assert(chunk@ =~= requests@.subrange(pos as int, pos as int + i as int + 1));
            }
            i = i + 1;
        }
        dispatch_plan(&self.cache, &chunk)
    }

    /// Stores one chunk's fetched responses and assembles the chunk's
    /// responses in input order; see `dispatch_supply`.
    pub fn supply_chunk(
        &mut self,
        chunk: &Vec<Request>,
        plan: &Vec<Request>,
        fetched: &Vec<Response>,
    ) -> (out: Vec<Response>)
        requires
            old(self).cache.wf(),
            plan@ == spec_plan(old(self).cache@, chunk@),
            fetched@.len() == plan@.len(),
        ensures
            final(self).cache.wf(),
            final(self).token == old(self).token,
            out@.len() == chunk@.len(),
            forall|i: int|
                0 <= i < chunk@.len() ==> (#[trigger] out@[i])@ == crate::dispatch::response_for(
                    old(self).cache@,
                    plan@,
                    responses_view(fetched@),
                    chunk@[i],
                ),
            final(self).cache@ == crate::dispatch::spec_store_all(
                old(self).cache@,
                plan@,
                responses_view(fetched@),
            ),
    {
        dispatch_supply(&mut self.cache, chunk, plan, fetched)
    }

    /// Resolved groups of a run of responses: every group with its
    /// hierarchy and child stubs attached and marked fully loaded, in
    /// response order.
    pub fn load_groups(&self, responses: Vec<Response>) -> (out: Vec<Group>)
        ensures
            groups_view(out@) == spec_load_groups(responses_view(responses@)),
    {
        let ghost rv = responses_view(responses@);
        let mut out: Vec<Group> = Vec::new();
        let mut i: usize = 0;
        while i < responses.len()
            invariant
                i <= responses@.len(),
                rv == responses_view(responses@),
                rv.len() == responses@.len(),
                groups_view(out@) == spec_load_groups(rv.take(i as int)),
            decreases responses@.len() - i,
        {
            proof {
                assert(rv.take(i as int + 1).drop_last() =~= rv.take(i as int));
                assert(rv.take(i as int + 1).last() == rv[i as int]);
                assert(rv[i as int] == responses@[i as int]@);
            }
            let mut part = response_into_groups(&responses[i]);
            let ghost prev = groups_view(out@);
            let ghost partv = groups_view(part@);
            out.append(&mut part);
            proof {
                assert(groups_view(out@) =~= prev + partv);
            }
            i = i + 1;
        }
        proof {
            assert(rv.take(rv.len() as int) =~= rv);
        }
        out
    }

    /// The single resolved group of one response; the response must carry
    /// at least one group.
    pub fn load_group(&self, response: Response) -> (out: Group)
        requires
            response_groups(response@).len() > 0,
        ensures
            out@ == response_groups(response@).last(),
    {
        let ghost rv = responses_view(seq![response]);
        let mut groups = self.load_groups(vec![response]);
        proof {
            assert(rv.drop_last() =~= Seq::<ResponseView>::empty());
            assert(groups_view(groups@).len() > 0);
            assert(groups_view(groups@).last() == groups@[groups@.len() - 1]@);
        }
        groups.pop().unwrap()
    }

    /// Resolved, classified people of a run of membership-listing
    /// responses, each tagged with the group it was requested through and
    /// marked partially loaded. Every person must resolve to at least one
    /// role.
    pub fn load_people_of_groups(&self, responses: Vec<(u16, Response)>) -> (out: Vec<Person>)
        requires
            forall|i: int|
                0 <= i < responses@.len() ==> response_people_ok((#[trigger] responses@[i]).1@),
        ensures
            persons_view(out@) == spec_load_people_of_groups(tagged_responses_view(responses@)),
    {
        let ghost rv = tagged_responses_view(responses@);
        let mut out: Vec<Person> = Vec::new();
        let mut i: usize = 0;
        while i < responses.len()
            invariant
                i <= responses@.len(),
                rv == tagged_responses_view(responses@),
                rv.len() == responses@.len(),
                forall|k: int|
                    0 <= k < responses@.len() ==> response_people_ok(
                        (#[trigger] responses@[k]).1@,
                    ),
                persons_view(out@) == spec_load_people_of_groups(rv.take(i as int)),
            decreases responses@.len() - i,
        {
            proof {
                assert(rv.take(i as int + 1).drop_last() =~= rv.take(i as int));
                assert(rv.take(i as int + 1).last() == rv[i as int]);
                assert(rv[i as int] == (responses@[i as int].0, responses@[i as int].1@));
            }
            let gid = responses[i].0;
            let mut part = response_into_people(&responses[i].1, false, Some(gid));
            let ghost prev = persons_view(out@);
            let ghost partv = persons_view(part@);
            out.append(&mut part);
            proof {
                assert(persons_view(out@) =~= prev + partv);
            }
            i = i + 1;
        }
        proof {
            assert(rv.take(rv.len() as int) =~= rv);
        }
        out
    }

    /// Resolved, classified people of one membership-listing response.
    pub fn load_people_of_group(&self, id: u16, response: Response) -> (out: Vec<Person>)
        requires
            response_people_ok(response@),
        ensures
            persons_view(out@) == response_people(response@, false, Some(id)),
    {
        let ghost resp_v = response@;
        let v: Vec<(u16, Response)> = vec![(id, response)];
        let ghost rv = tagged_responses_view(v@);
        proof {
            assert(v@.len() == 1 && v@[0].0 == id && v@[0].1@ == resp_v);
            assert(rv[0] == (id, resp_v));
            assert(rv.last() == rv[0]);
            assert(rv.drop_last() =~= Seq::<(u16, ResponseView)>::empty());
        }
        let out = self.load_people_of_groups(v);
        proof {
            assert(spec_load_people_of_groups(Seq::<(u16, ResponseView)>::empty())
                == Seq::<PersonView>::empty());
            assert(spec_load_people_of_groups(rv) == Seq::<PersonView>::empty() + response_people(
                resp_v,
                false,
                Some(id),
            ));
            assert(Seq::<PersonView>::empty() + response_people(resp_v, false, Some(id))
                =~= response_people(resp_v, false, Some(id)));
        }
        out
    }

    /// Resolved, classified people of a run of single-person responses,
    /// each marked fully loaded. Every person must resolve to at least one
    /// role.
    pub fn load_people(&self, responses: Vec<Response>) -> (out: Vec<Person>)
        requires
            forall|i: int|
                0 <= i < responses@.len() ==> response_people_ok((#[trigger] responses@[i])@),
        ensures
            persons_view(out@) == spec_load_people(responses_view(responses@)),
    {
        let ghost rv = responses_view(responses@);
        let mut out: Vec<Person> = Vec::new();
        let mut i: usize = 0;
        while i < responses.len()
            invariant
                i <= responses@.len(),
                rv == responses_view(responses@),
                rv.len() == responses@.len(),
                forall|k: int|
                    0 <= k < responses@.len() ==> response_people_ok((#[trigger] responses@[k])@),
                persons_view(out@) == spec_load_people(rv.take(i as int)),
            decreases responses@.len() - i,
        {
            proof {
                assert(rv.take(i as int + 1).drop_last() =~= rv.take(i as int));
                assert(rv.take(i as int + 1).last() == rv[i as int]);
                assert(rv[i as int] == responses@[i as int]@);
            }
            let mut part = response_into_people(&responses[i], true, None);
            let ghost prev = persons_view(out@);
            let ghost partv = persons_view(part@);
            out.append(&mut part);
            proof {
                assert(persons_view(out@) =~= prev + partv);
            }
            i = i + 1;
        }
        proof {
            assert(rv.take(rv.len() as int) =~= rv);
        }
        out
    }

    /// The single resolved person of one response; the response must carry
    /// at least one person, and every person must resolve to at least one
    /// role.
    pub fn load_person(&self, response: Response) -> (out: Person)
        requires
            response_people_ok(response@),
            response_people(response@, true, None).len() > 0,
        ensures
            out@ == response_people(response@, true, None).last(),
    {
        let ghost rv = responses_view(seq![response]);
        let mut people = self.load_people(vec![response]);
        proof {
            assert(rv.drop_last() =~= Seq::<ResponseView>::empty());
            assert(persons_view(people@).len() > 0);
            assert(persons_view(people@).last() == people@[people@.len() - 1]@);
        }
        people.pop().unwrap()
    }

    /// Merges freshly detailed people into one entry per identifier: sorts
    /// ascending by identifier, then folds adjacent entries that share one.
    /// The result holds one entry per distinct identifier in ascending
    /// order; `crate::details::lemma_load_details_distinct_sorted` proves
    /// it.
    pub fn load_details_of_people(&self, loaded: Vec<Person>) -> (out: Vec<Person>)
        ensures
            persons_view(out@) == spec_load_details(persons_view(loaded@)),
    {
        let sorted = sort_people_by_id(loaded);
        fold_adjacent_by_id(sorted)
    }
}

/// Resolved groups of a run of responses, flattened in order.
pub open spec fn spec_load_groups(rs: Seq<ResponseView>) -> Seq<GroupView>
    decreases rs.len(),
{
    if rs.len() == 0 {
        Seq::empty()
    } else {
        spec_load_groups(rs.drop_last()) + response_groups(rs.last())
    }
}

/// Resolved fully loaded people of a run of responses, flattened in order.
pub open spec fn spec_load_people(rs: Seq<ResponseView>) -> Seq<PersonView>
    decreases rs.len(),
{
    if rs.len() == 0 {
        Seq::empty()
    } else {
        spec_load_people(rs.drop_last()) + response_people(rs.last(), true, None)
    }
}

/// The view of group-tagged responses.
pub open spec fn tagged_responses_view(s: Seq<(u16, Response)>) -> Seq<(u16, ResponseView)> {
    s.map(|i: int, e: (u16, Response)| (e.0, e.1@))
}

/// Resolved partially loaded people of a run of tagged membership-listing
/// responses, flattened in order.
pub open spec fn spec_load_people_of_groups(rs: Seq<(u16, ResponseView)>) -> Seq<PersonView>
    decreases rs.len(),
{
    if rs.len() == 0 {
        Seq::empty()
    } else {
        spec_load_people_of_groups(rs.drop_last()) + response_people(
            rs.last().1,
            false,
            Some(rs.last().0),
        )
    }
}

/// The descriptors `load_details_of_people` re-fetches: one person-within-
/// group descriptor per person, addressed through the group the person was
/// first observed in. `None` when some person's identifier is not a plain
/// number that fits.
pub fn details_requests(persons: &Vec<Person>) -> (r: Option<Vec<Request>>)
    ensures
        r is Some <==> (forall|i: int|
            0 <= i < persons@.len() ==> {
                let id = (#[trigger] persons@[i])@.id;
                id.len() > 0 && all_dec_digits(id) && dec_val(id) <= u32::MAX
            }),
        r is Some ==> {
            &&& r.unwrap()@.len() == persons@.len()
            &&& forall|i: int|
                0 <= i < persons@.len() ==> (#[trigger] r.unwrap()@[i]) == Request::People(
                    persons@[i]@.requested_by_group,
                    dec_val(persons@[i]@.id) as u32,
                )
        },
{
    let mut out: Vec<Request> = Vec::new();
    let mut i: usize = 0;
    while i < persons.len()
        invariant
            i <= persons@.len(),
            out@.len() == i as nat,
            forall|k: int|
                0 <= k < i ==> {
                    let id = (#[trigger] persons@[k])@.id;
                    id.len() > 0 && all_dec_digits(id) && dec_val(id) <= u32::MAX
                },
            forall|k: int|
                0 <= k < i ==> (#[trigger] out@[k]) == Request::People(
                    persons@[k]@.requested_by_group,
                    dec_val(persons@[k]@.id) as u32,
                ),
        decreases persons@.len() - i,
    {
        match parse_u32(persons[i].id.as_str()) {
            Some(pid) => {
                out.push(Request::People(persons[i].requested_by_group, pid));
            },
            None => {
                return None;
            },
        }
        i = i + 1;
    }
    Some(out)
}

/// The descriptors that fetch full details for the members of a group that
/// are not yet fully loaded, in member order. `None` when the group's or
/// some such member's identifier is not a plain number that fits.
pub fn member_detail_requests(group_id: &String, members: &Vec<Person>) -> (r: Option<Vec<Request>>)
    ensures
        r is Some <==> ({
            &&& group_id@.len() > 0 && all_dec_digits(group_id@) && dec_val(group_id@)
                <= u16::MAX
            &&& forall|i: int|
                0 <= i < members@.len() ==> ((#[trigger] members@[i])@.is_loaded_fully || {
                    let id = members@[i]@.id;
                    id.len() > 0 && all_dec_digits(id) && dec_val(id) <= u32::MAX
                })
        }),
        r is Some ==> r.unwrap()@ == spec_member_detail_requests(
            (dec_val(group_id@) as u16),
            persons_view(members@),
        ),
{
    let gid = match parse_u16(group_id.as_str()) {
        Some(g) => g,
        None => {
            return None;
        },
    };
    let ghost mv = persons_view(members@);
    let mut out: Vec<Request> = Vec::new();
    let mut i: usize = 0;
    while i < members.len()
        invariant
            i <= members@.len(),
            mv == persons_view(members@),
            mv.len() == members@.len(),
            gid as int == dec_val(group_id@),
            forall|k: int|
                0 <= k < i ==> ((#[trigger] members@[k])@.is_loaded_fully || {
                    let id = members@[k]@.id;
                    id.len() > 0 && all_dec_digits(id) && dec_val(id) <= u32::MAX
                }),
            out@ == spec_member_detail_requests(gid, mv.take(i as int)),
        decreases members@.len() - i,
    {
        proof {
            assert(mv.take(i as int + 1).drop_last() =~= mv.take(i as int));
            assert(mv.take(i as int + 1).last() == mv[i as int]);
            assert(mv[i as int] == members@[i as int]@);
        }
        if !members[i].is_loaded_fully {
            match parse_u32(members[i].id.as_str()) {
                Some(pid) => {
                    out.push(Request::People(gid, pid));
                },
                None => {
                    return None;
                },
            }
        }
        i = i + 1;
    }
    proof {
        assert(mv.take(mv.len() as int) =~= mv);
    }
    Some(out)
}

/// The detail descriptors for the members not yet fully loaded, in member
/// order.
pub open spec fn spec_member_detail_requests(gid: u16, ms: Seq<PersonView>) -> Seq<Request>
    decreases ms.len(),
{
    if ms.len() == 0 {
        Seq::empty()
    } else {
        let rest = spec_member_detail_requests(gid, ms.drop_last());
        if ms.last().is_loaded_fully {
            rest
        } else {
            rest.push(Request::People(gid, dec_val(ms.last().id) as u32))
        }
    }
}

impl Person {
    /// Applies a full reload: a no-op when this person is already fully
    /// loaded; otherwise the fetched person replaces this one and is
    /// marked fully loaded.
    pub fn load(&mut self, fetched: Person)
        ensures
            old(self).is_loaded_fully ==> final(self)@ == old(self)@,
            !old(self).is_loaded_fully ==> final(self)@ == (PersonView {
                is_loaded_fully: true,
                ..fetched@
            }),
    {
        if !self.is_loaded_fully {
            let mut p = fetched;
            p.is_loaded_fully = true;
            *self = p;
            proof {
                assert(self@ =~= (PersonView { is_loaded_fully: true, ..fetched@ }));
            }
        }
    }
}

impl Group {
    /// Applies a full reload: a no-op when this group is already fully
    /// loaded; otherwise the fetched group replaces this one, keeping the
    /// cached member list and becoming fully loaded.
    pub fn load(&mut self, fetched: Group)
        ensures
            old(self).is_loaded_fully ==> final(self)@ == old(self)@,
            !old(self).is_loaded_fully ==> final(self)@ == (GroupView {
                people: old(self)@.people,
                is_loaded_fully: true,
                ..fetched@
            }),
    {
        if !self.is_loaded_fully {
            let mut group = fetched;
            group.people = self.people.take();
            group.is_loaded_fully = true;
            *self = group;
            proof {
                assert(self@ =~= (GroupView {
                    people: old(self)@.people,
                    is_loaded_fully: true,
                    ..fetched@
                }));
            }
        }
    }

    /// The members of the group: the cached list when one is present,
    /// otherwise `loaded` becomes the cached list. The members returned are
    /// not fully loaded individuals.
    pub fn get_persons(&mut self, loaded: Vec<Person>) -> (out: Vec<Person>)
        ensures
            (*old(self)).people is Some ==> final(self)@ == old(self)@ && persons_view(out@) == old(
                self,
            )@.people.unwrap(),
            (*old(self)).people is None ==> final(self)@ == (GroupView {
                people: Some(persons_view(loaded@)),
                ..old(self)@
            }) && persons_view(out@) == persons_view(loaded@),
    {
        if self.people.is_none() {
            self.people = Some(loaded);
            proof {
                assert(self@ =~= (GroupView { people: Some(persons_view(loaded@)), ..old(self)@ }));
            }
        }
        match &self.people {
            Some(ps) => crate::model::clone_person_vec(ps),
            None => Vec::new(),
        }
    }

    /// The members with full details: members already fully loaded keep
    /// their places in front, the freshly fetched details follow, and the
    /// combined list becomes the cached member list.
    pub fn get_persons_with_details(&mut self, fetched: Vec<Person>) -> (out: Vec<Person>)
        requires
            (*old(self)).people is Some,
        ensures
            persons_view(out@) == keep_loaded(old(self)@.people.unwrap()) + persons_view(fetched@),
            final(self)@ == (GroupView {
                people: Some(
                    keep_loaded(old(self)@.people.unwrap()) + persons_view(fetched@),
                ),
                ..old(self)@
            }),
    {
        let ghost pv = self@.people.unwrap();
        let mut result: Vec<Person> = Vec::new();
        {
            let ps = match &self.people {
                Some(ps) => ps,
                None => unreached(),
            };
            let mut i: usize = 0;
            while i < ps.len()
                invariant
                    i <= ps@.len(),
                    pv.len() == ps@.len(),
                    forall|k: int| 0 <= k < ps@.len() ==> pv[k] == (#[trigger] ps@[k])@,
                    persons_view(result@) == keep_loaded(pv.take(i as int)),
                decreases ps@.len() - i,
            {
                proof {
                    assert(pv.take(i as int + 1).drop_last() =~= pv.take(i as int));
                    assert(pv.take(i as int + 1).last() == pv[i as int]);
                }
                if ps[i].is_loaded_fully {
                    result.push(ps[i].clone());
                    proof {
                        assert(persons_view(result@) =~= keep_loaded(pv.take(i as int)).push(
                            pv[i as int],
                        ));
                    }
                }
                i = i + 1;
            }
            proof {
                assert(pv.take(pv.len() as int) =~= pv);
            }
        }
        let mut more = fetched;
        let ghost keptv = persons_view(result@);
        let ghost morev = persons_view(more@);
        result.append(&mut more);
        proof {
            assert(persons_view(result@) =~= keptv + morev);
        }
        let copy = crate::model::clone_person_vec(&result);
        self.people = Some(result);
        proof {
            assert(self@ =~= (GroupView {
                people: Some(keep_loaded(pv) + morev),
                ..old(self)@
            }));
        }
        copy
    }
}

/// The members of a list that are already fully loaded, in order.
pub open spec fn keep_loaded(s: Seq<PersonView>) -> Seq<PersonView>
    decreases s.len(),
{
    if s.len() == 0 {
        Seq::empty()
    } else {
        let rest = keep_loaded(s.drop_last());
        if s.last().is_loaded_fully {
            rest.push(s.last())
        } else {
            rest
        }
    }
}

} // verus!
