//! Entity shapes of the directory service, their mathematical views, and the
//! progressive-loading transitions (`load`) on people and groups.
//!
//! Views map every `String` to a `Seq<char>` and every `Vec` to a `Seq`, so
//! contracts can state deep equality of decoded values.

use vstd::prelude::*;

verus! {

/// The active credential: either a user email plus session token, or an
/// opaque application token.
#[derive(Debug)]
pub enum Token {
    XUserToken(String, String),
    XToken(String),
}

/// Links of a person to a primary group and to role identifiers.
#[derive(Debug)]
pub struct PersonLinks {
    pub primary_group: String,
    pub roles: Option<Vec<String>>,
}

/// A person in the directory. Created partially loaded when produced by a
/// membership listing; fully loaded after a direct single-person fetch.
#[derive(Debug)]
pub struct Person {
    pub id: String,
    pub href: Option<String>,
    pub first_name: Option<String>,
    pub last_name: Option<String>,
    pub nickname: Option<String>,
    pub company_name: Option<String>,
    pub company: bool,
    pub email: Option<String>,
    pub gender: Option<String>,
    pub address: Option<String>,
    pub zip_code: Option<String>,
    pub town: Option<String>,
    pub country: Option<String>,
    pub household_key: Option<String>,
    pub picture: Option<String>,
    pub links: PersonLinks,
    /// Only populated by the sign-in endpoint.
    pub authentication_token: Option<String>,
    /// Resolved role records (side-loaded references attached).
    pub roles: Vec<Role>,
    pub is_loaded_fully: bool,
    /// The group through which this person was first observed.
    pub requested_by_group: u16,
    /// Derived: true unless the person only holds participant roles.
    pub is_leiter: bool,
}

/// Reference lists of a group: parent, layer, and identifier lists for the
/// ancestor hierarchy and the child groups.
#[derive(Debug)]
pub struct GroupLinks {
    pub parent: String,
    pub layer_group: String,
    pub hierarchies: Option<Vec<String>>,
    pub children: Option<Vec<String>>,
}

/// A group in the directory hierarchy.
#[derive(Debug)]
pub struct Group {
    pub id: String,
    pub href: Option<String>,
    pub group_type: String,
    pub layer: Option<bool>,
    pub name: String,
    pub short_name: Option<String>,
    pub email: Option<String>,
    pub address: Option<String>,
    pub zip_code: Option<u16>,
    pub town: Option<String>,
    pub country: Option<String>,
    pub pbs_shortname: Option<String>,
    pub website: Option<String>,
    pub bank_account: Option<String>,
    pub description: Option<String>,
    pub pta: Option<bool>,
    pub vkp: Option<bool>,
    pub pbs_material_insurance: Option<bool>,
    pub links: Option<GroupLinks>,
    /// Resolved ancestor stubs, attached from the side-loaded table.
    pub hierarchies: Option<Vec<Group>>,
    /// Resolved child stubs, attached from the side-loaded table.
    pub children: Vec<Group>,
    pub is_loaded_fully: bool,
    /// Cached member list, populated lazily.
    pub people: Option<Vec<Person>>,
}

/// Link from a role to the group it is scoped to.
#[derive(Debug)]
pub struct RolesLinks {
    pub group: String,
    pub layer_group: String,
}

/// A role record as side-loaded by the service.
#[derive(Debug)]
pub struct Role {
    pub id: String,
    pub role_type: String,
    pub label: Option<String>,
    pub created_at: String,
    pub updated_at: String,
    pub deleted_at: Option<String>,
    pub links: Option<RolesLinks>,
}

/// Side-loaded reference tables: auxiliary groups and roles referenced by
/// identifier from the primary entities.
#[derive(Debug)]
pub struct Linked {
    pub groups: Option<Vec<Group>>,
    pub roles: Option<Vec<Role>>,
}

/// The decoded result of one network call.
#[derive(Debug)]
pub struct Response {
    pub people: Option<Vec<Person>>,
    pub groups: Option<Vec<Group>>,
    pub linked: Option<Linked>,
}

// ---------------------------------------------------------------------------
// Views
// ---------------------------------------------------------------------------

pub ghost enum TokenView {
    XUserToken(Seq<char>, Seq<char>),
    XToken(Seq<char>),
}

#[verifier::ext_equal]
pub ghost struct PersonLinksView {
    pub primary_group: Seq<char>,
    pub roles: Option<Seq<Seq<char>>>,
}

#[verifier::ext_equal]
pub ghost struct PersonView {
    pub id: Seq<char>,
    pub href: Option<Seq<char>>,
    pub first_name: Option<Seq<char>>,
    pub last_name: Option<Seq<char>>,
    pub nickname: Option<Seq<char>>,
    pub company_name: Option<Seq<char>>,
    pub company: bool,
    pub email: Option<Seq<char>>,
    pub gender: Option<Seq<char>>,
    pub address: Option<Seq<char>>,
    pub zip_code: Option<Seq<char>>,
    pub town: Option<Seq<char>>,
    pub country: Option<Seq<char>>,
    pub household_key: Option<Seq<char>>,
    pub picture: Option<Seq<char>>,
    pub links: PersonLinksView,
    pub authentication_token: Option<Seq<char>>,
    pub roles: Seq<RoleView>,
    pub is_loaded_fully: bool,
    pub requested_by_group: u16,
    pub is_leiter: bool,
}

#[verifier::ext_equal]
pub ghost struct GroupLinksView {
    pub parent: Seq<char>,
    pub layer_group: Seq<char>,
    pub hierarchies: Option<Seq<Seq<char>>>,
    pub children: Option<Seq<Seq<char>>>,
}

#[verifier::ext_equal]
pub ghost struct GroupView {
    pub id: Seq<char>,
    pub href: Option<Seq<char>>,
    pub group_type: Seq<char>,
    pub layer: Option<bool>,
    pub name: Seq<char>,
    pub short_name: Option<Seq<char>>,
    pub email: Option<Seq<char>>,
    pub address: Option<Seq<char>>,
    pub zip_code: Option<u16>,
    pub town: Option<Seq<char>>,
    pub country: Option<Seq<char>>,
    pub pbs_shortname: Option<Seq<char>>,
    pub website: Option<Seq<char>>,
    pub bank_account: Option<Seq<char>>,
    pub description: Option<Seq<char>>,
    pub pta: Option<bool>,
    pub vkp: Option<bool>,
    pub pbs_material_insurance: Option<bool>,
    pub links: Option<GroupLinksView>,
    pub hierarchies: Option<Seq<GroupView>>,
    pub children: Seq<GroupView>,
    pub is_loaded_fully: bool,
    pub people: Option<Seq<PersonView>>,
}

#[verifier::ext_equal]
pub ghost struct RolesLinksView {
    pub group: Seq<char>,
    pub layer_group: Seq<char>,
}

#[verifier::ext_equal]
pub ghost struct RoleView {
    pub id: Seq<char>,
    pub role_type: Seq<char>,
    pub label: Option<Seq<char>>,
    pub created_at: Seq<char>,
    pub updated_at: Seq<char>,
    pub deleted_at: Option<Seq<char>>,
    pub links: Option<RolesLinksView>,
}

#[verifier::ext_equal]
pub ghost struct LinkedView {
    pub groups: Option<Seq<GroupView>>,
    pub roles: Option<Seq<RoleView>>,
}

#[verifier::ext_equal]
pub ghost struct ResponseView {
    pub people: Option<Seq<PersonView>>,
    pub groups: Option<Seq<GroupView>>,
    pub linked: Option<LinkedView>,
}

pub open spec fn opt_str_view(o: Option<String>) -> Option<Seq<char>> {
    match o {
        Some(s) => Some(s@),
        None => None,
    }
}

pub open spec fn strs_view(s: Seq<String>) -> Seq<Seq<char>> {
    s.map(|i: int, x: String| x@)
}

pub open spec fn opt_strs_view(o: Option<Vec<String>>) -> Option<Seq<Seq<char>>> {
    match o {
        Some(v) => Some(strs_view(v@)),
        None => None,
    }
}

impl View for Token {
    type V = TokenView;

    open spec fn view(&self) -> TokenView {
        match self {
            Token::XUserToken(email, token) => TokenView::XUserToken(email@, token@),
            Token::XToken(token) => TokenView::XToken(token@),
        }
    }
}

impl View for RolesLinks {
    type V = RolesLinksView;

    open spec fn view(&self) -> RolesLinksView {
        RolesLinksView { group: self.group@, layer_group: self.layer_group@ }
    }
}

impl View for Role {
    type V = RoleView;

    open spec fn view(&self) -> RoleView {
        RoleView {
            id: self.id@,
            role_type: self.role_type@,
            label: opt_str_view(self.label),
            created_at: self.created_at@,
            updated_at: self.updated_at@,
            deleted_at: opt_str_view(self.deleted_at),
            links: match self.links {
                Some(l) => Some(l@),
                None => None,
            },
        }
    }
}

pub open spec fn roles_view(s: Seq<Role>) -> Seq<RoleView> {
    s.map(|i: int, r: Role| r@)
}

impl View for PersonLinks {
    type V = PersonLinksView;

    open spec fn view(&self) -> PersonLinksView {
        PersonLinksView {
            primary_group: self.primary_group@,
            roles: opt_strs_view(self.roles),
        }
    }
}

impl View for Person {
    type V = PersonView;

    open spec fn view(&self) -> PersonView {
        PersonView {
            id: self.id@,
            href: opt_str_view(self.href),
            first_name: opt_str_view(self.first_name),
            last_name: opt_str_view(self.last_name),
            nickname: opt_str_view(self.nickname),
            company_name: opt_str_view(self.company_name),
            company: self.company,
            email: opt_str_view(self.email),
            gender: opt_str_view(self.gender),
            address: opt_str_view(self.address),
            zip_code: opt_str_view(self.zip_code),
            town: opt_str_view(self.town),
            country: opt_str_view(self.country),
            household_key: opt_str_view(self.household_key),
            picture: opt_str_view(self.picture),
            links: self.links@,
            authentication_token: opt_str_view(self.authentication_token),
            roles: roles_view(self.roles@),
            is_loaded_fully: self.is_loaded_fully,
            requested_by_group: self.requested_by_group,
            is_leiter: self.is_leiter,
        }
    }
}

pub open spec fn persons_view(s: Seq<Person>) -> Seq<PersonView> {
    s.map(|i: int, p: Person| p@)
}

pub open spec fn opt_persons_view(o: Option<Vec<Person>>) -> Option<Seq<PersonView>> {
    match o {
        Some(v) => Some(persons_view(v@)),
        None => None,
    }
}

impl View for GroupLinks {
    type V = GroupLinksView;

    open spec fn view(&self) -> GroupLinksView {
        GroupLinksView {
            parent: self.parent@,
            layer_group: self.layer_group@,
            hierarchies: opt_strs_view(self.hierarchies),
            children: opt_strs_view(self.children),
        }
    }
}

pub open spec fn group_view(g: Group) -> GroupView
    decreases g,
{
    GroupView {
        id: g.id@,
        href: opt_str_view(g.href),
        group_type: g.group_type@,
        layer: g.layer,
        name: g.name@,
        short_name: opt_str_view(g.short_name),
        email: opt_str_view(g.email),
        address: opt_str_view(g.address),
        zip_code: g.zip_code,
        town: opt_str_view(g.town),
        country: opt_str_view(g.country),
        pbs_shortname: opt_str_view(g.pbs_shortname),
        website: opt_str_view(g.website),
        bank_account: opt_str_view(g.bank_account),
        description: opt_str_view(g.description),
        pta: g.pta,
        vkp: g.vkp,
        pbs_material_insurance: g.pbs_material_insurance,
        links: match g.links {
            Some(l) => Some(l@),
            None => None,
        },
        hierarchies: match g.hierarchies {
            Some(hs) => Some(
                Seq::new(
                    hs@.len(),
                    |i: int|
                        if 0 <= i < hs@.len() {
                            group_view(hs@[i])
                        } else {
                            arbitrary()
                        },
                ),
            ),
            None => None,
        },
        children: Seq::new(
            g.children@.len(),
            |i: int|
                if 0 <= i < g.children@.len() {
                    group_view(g.children@[i])
                } else {
                    arbitrary()
                },
        ),
        is_loaded_fully: g.is_loaded_fully,
        people: opt_persons_view(g.people),
    }
}

impl View for Group {
    type V = GroupView;

    open spec fn view(&self) -> GroupView {
        group_view(*self)
    }
}

pub open spec fn groups_view(s: Seq<Group>) -> Seq<GroupView> {
    s.map(|i: int, g: Group| g@)
}

pub open spec fn opt_groups_view(o: Option<Vec<Group>>) -> Option<Seq<GroupView>> {
    match o {
        Some(v) => Some(groups_view(v@)),
        None => None,
    }
}

impl View for Linked {
    type V = LinkedView;

    open spec fn view(&self) -> LinkedView {
        LinkedView {
            groups: opt_groups_view(self.groups),
            roles: match self.roles {
                Some(v) => Some(roles_view(v@)),
                None => None,
            },
        }
    }
}

pub open spec fn opt_linked_view(o: Option<Linked>) -> Option<LinkedView> {
    match o {
        Some(l) => Some(l@),
        None => None,
    }
}

impl View for Response {
    type V = ResponseView;

    open spec fn view(&self) -> ResponseView {
        ResponseView {
            people: opt_persons_view(self.people),
            groups: opt_groups_view(self.groups),
            linked: opt_linked_view(self.linked),
        }
    }
}

pub open spec fn responses_view(s: Seq<Response>) -> Seq<ResponseView> {
    s.map(|i: int, r: Response| r@)
}

// ---------------------------------------------------------------------------
// Deep copies
// ---------------------------------------------------------------------------

fn clone_opt_string(o: &Option<String>) -> (r: Option<String>)
    ensures
        r == *o,
{
    match o {
        Some(s) => Some(s.clone()),
        None => None,
    }
}

fn clone_string_vec(v: &Vec<String>) -> (r: Vec<String>)
    ensures
        r@ == v@,
{
    let mut out: Vec<String> = Vec::new();
    let mut i: usize = 0;
    while i < v.len()
        invariant
            i <= v.len(),
            out@ == v@.take(i as int),
        decreases v.len() - i,
    {
        out.push(v[i].clone());
        proof {
            assert(out@ =~= v@.take(i as int + 1));
        }
        i = i + 1;
    }
    proof {
        assert(v@.take(v@.len() as int) =~= v@);
    }
    out
}

fn clone_opt_string_vec(o: &Option<Vec<String>>) -> (r: Option<Vec<String>>)
    ensures
        opt_strs_view(r) == opt_strs_view(*o),
        r is Some <==> (*o) is Some,
{
    match o {
        Some(v) => Some(clone_string_vec(v)),
        None => None,
    }
}

impl Clone for RolesLinks {
    /// A deep copy; the copy equals the source value.
    fn clone(&self) -> (r: Self)
        ensures
            r == *self,
    {
        RolesLinks { group: self.group.clone(), layer_group: self.layer_group.clone() }
    }
}

impl Clone for Role {
    /// A deep copy; the copy equals the source value.
    fn clone(&self) -> (r: Self)
        ensures
            r == *self,
    {
        Role {
            id: self.id.clone(),
            role_type: self.role_type.clone(),
            label: clone_opt_string(&self.label),
            created_at: self.created_at.clone(),
            updated_at: self.updated_at.clone(),
            deleted_at: clone_opt_string(&self.deleted_at),
            links: match &self.links {
                Some(l) => Some(l.clone()),
                None => None,
            },
        }
    }
}

fn clone_role_vec(v: &Vec<Role>) -> (r: Vec<Role>)
    ensures
        r@ == v@,
{
    let mut out: Vec<Role> = Vec::new();
    let mut i: usize = 0;
    while i < v.len()
        invariant
            i <= v.len(),
            out@ == v@.take(i as int),
        decreases v.len() - i,
    {
        out.push(v[i].clone());
        proof {
            assert(out@ =~= v@.take(i as int + 1));
        }
        i = i + 1;
    }
    proof {
        assert(v@.take(v@.len() as int) =~= v@);
    }
    out
}

impl Clone for PersonLinks {
    /// A deep copy; the copy's view equals the original's.
    fn clone(&self) -> (r: Self)
        ensures
            r@ == self@,
    {
        PersonLinks {
            primary_group: self.primary_group.clone(),
            roles: clone_opt_string_vec(&self.roles),
        }
    }
}

impl Clone for Person {
    /// A deep copy; the copy's view equals the original's.
    fn clone(&self) -> (r: Self)
        ensures
            r@ == self@,
    {
        Person {
            id: self.id.clone(),
            href: clone_opt_string(&self.href),
            first_name: clone_opt_string(&self.first_name),
            last_name: clone_opt_string(&self.last_name),
            nickname: clone_opt_string(&self.nickname),
            company_name: clone_opt_string(&self.company_name),
            company: self.company,
            email: clone_opt_string(&self.email),
            gender: clone_opt_string(&self.gender),
            address: clone_opt_string(&self.address),
            zip_code: clone_opt_string(&self.zip_code),
            town: clone_opt_string(&self.town),
            country: clone_opt_string(&self.country),
            household_key: clone_opt_string(&self.household_key),
            picture: clone_opt_string(&self.picture),
            links: self.links.clone(),
            authentication_token: clone_opt_string(&self.authentication_token),
            roles: clone_role_vec(&self.roles),
            is_loaded_fully: self.is_loaded_fully,
            requested_by_group: self.requested_by_group,
            is_leiter: self.is_leiter,
        }
    }
}

pub fn clone_person_vec(v: &Vec<Person>) -> (r: Vec<Person>)
    ensures
        persons_view(r@) == persons_view(v@),
{
    let mut out: Vec<Person> = Vec::new();
    let mut i: usize = 0;
    while i < v.len()
        invariant
            i <= v.len(),
            out@.len() == i as nat,
            forall|j: int| 0 <= j < i ==> (#[trigger] out@[j])@ == v@[j]@,
        decreases v.len() - i,
    {
        out.push(v[i].clone());
        i = i + 1;
    }
    proof {
        assert forall|j: int| 0 <= j < v@.len() implies persons_view(out@)[j] == persons_view(
            v@,
        )[j] by {
            assert(out@[j]@ == v@[j]@);
        }
        assert(persons_view(out@) =~= persons_view(v@));
    }
    out
}

impl Clone for GroupLinks {
    /// A deep copy; the copy's view equals the original's.
    fn clone(&self) -> (r: Self)
        ensures
            r@ == self@,
    {
        GroupLinks {
            parent: self.parent.clone(),
            layer_group: self.layer_group.clone(),
            hierarchies: clone_opt_string_vec(&self.hierarchies),
            children: clone_opt_string_vec(&self.children),
        }
    }
}

pub fn clone_group(g: &Group) -> (r: Group)
    ensures
        r@ == g@,
    decreases *g,
{
    let r = Group {
        id: g.id.clone(),
        href: clone_opt_string(&g.href),
        group_type: g.group_type.clone(),
        layer: g.layer,
        name: g.name.clone(),
        short_name: clone_opt_string(&g.short_name),
        email: clone_opt_string(&g.email),
        address: clone_opt_string(&g.address),
        zip_code: g.zip_code,
        town: clone_opt_string(&g.town),
        country: clone_opt_string(&g.country),
        pbs_shortname: clone_opt_string(&g.pbs_shortname),
        website: clone_opt_string(&g.website),
        bank_account: clone_opt_string(&g.bank_account),
        description: clone_opt_string(&g.description),
        pta: g.pta,
        vkp: g.vkp,
        pbs_material_insurance: g.pbs_material_insurance,
        links: match &g.links {
            Some(l) => Some(l.clone()),
            None => None,
        },
        hierarchies: match &g.hierarchies {
            Some(hs) => Some(clone_group_vec(hs)),
            None => None,
        },
        children: clone_group_vec(&g.children),
        is_loaded_fully: g.is_loaded_fully,
        people: match &g.people {
            Some(ps) => Some(clone_person_vec(ps)),
            None => None,
        },
    };
    proof {
        assert(r.children@.len() == g.children@.len()) by {
            assert(groups_view(r.children@).len() == groups_view(g.children@).len());
        }
        assert forall|i: int| 0 <= i < g.children@.len() implies #[trigger] r@.children[i]
            == g@.children[i] by {
            assert(groups_view(r.children@)[i] == groups_view(g.children@)[i]);
        }
        assert(r@.children =~= g@.children);
        if r.hierarchies is Some {
            assert(r.hierarchies.unwrap()@.len() == g.hierarchies.unwrap()@.len()) by {
                assert(groups_view(r.hierarchies.unwrap()@).len() == groups_view(
                    g.hierarchies.unwrap()@,
                ).len());
            }
            assert forall|i: int|
                0 <= i < g.hierarchies.unwrap()@.len() implies #[trigger] r@.hierarchies.unwrap()[i]
                == g@.hierarchies.unwrap()[i] by {
                assert(groups_view(r.hierarchies.unwrap()@)[i] == groups_view(
                    g.hierarchies.unwrap()@,
                )[i]);
            }
            assert(r@.hierarchies.unwrap() =~= g@.hierarchies.unwrap());
        }
        assert(r@ =~= g@);
    }
    r
}

pub fn clone_group_vec(v: &Vec<Group>) -> (r: Vec<Group>)
    ensures
        groups_view(r@) == groups_view(v@),
    decreases *v,
{
    let mut out: Vec<Group> = Vec::new();
    let mut i: usize = 0;
    while i < v.len()
        invariant
            i <= v.len(),
            out@.len() == i as nat,
            forall|j: int| 0 <= j < i ==> (#[trigger] out@[j])@ == v@[j]@,
        decreases v.len() - i,
    {
        out.push(clone_group(&v[i]));
        i = i + 1;
    }
    proof {
        assert forall|j: int| 0 <= j < v@.len() implies groups_view(out@)[j] == groups_view(
            v@,
        )[j] by {
            assert(out@[j]@ == v@[j]@);
        }
        assert(groups_view(out@) =~= groups_view(v@));
    }
    out
}

impl Clone for Group {
    /// A deep copy; the copy's view equals the original's.
    fn clone(&self) -> (r: Self)
        ensures
            r@ == self@,
    {
        clone_group(self)
    }
}

impl Clone for Linked {
    /// A deep copy; the copy's view equals the original's.
    fn clone(&self) -> (r: Self)
        ensures
            r@ == self@,
    {
        let r = Linked {
            groups: match &self.groups {
                Some(gs) => Some(clone_group_vec(gs)),
                None => None,
            },
            roles: match &self.roles {
                Some(rs) => Some(clone_role_vec(rs)),
                None => None,
            },
        };
        proof {
            assert(r@ =~= self@);
        }
        r
    }
}

impl Clone for Response {
    /// A deep copy; the copy's view equals the original's.
    fn clone(&self) -> (r: Self)
        ensures
            r@ == self@,
    {
        let r = Response {
            people: match &self.people {
                Some(ps) => Some(clone_person_vec(ps)),
                None => None,
            },
            groups: match &self.groups {
                Some(gs) => Some(clone_group_vec(gs)),
                None => None,
            },
            linked: match &self.linked {
                Some(l) => Some(l.clone()),
                None => None,
            },
        };
        proof {
            assert(r@ =~= self@);
        }
        r
    }
}

} // verus!
