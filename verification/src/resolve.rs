//! Side-loaded reference resolution: attaching hierarchy and child group
//! stubs to groups, and role records to people, by scanning a response's
//! linked tables for the first entry with a matching identifier. A missing
//! entry is dropped silently; it is not an error.

use vstd::prelude::*;

use crate::model::{
    Group, GroupView, Linked, LinkedView, Person, PersonView, Response, ResponseView, Role,
    RoleView, groups_view, opt_linked_view, persons_view, roles_view, strs_view,
};
use crate::strnum::str_eq;

verus! {

/// The first group of `table` whose identifier is `id`, if any.
pub open spec fn first_group_match(table: Seq<GroupView>, id: Seq<char>) -> Option<GroupView>
    decreases table.len(),
{
    if table.len() == 0 {
        None
    } else if table.first().id == id {
        Some(table.first())
    } else {
        first_group_match(table.drop_first(), id)
    }
}

/// The first role of `table` whose identifier is `id`, if any.
pub open spec fn first_role_match(table: Seq<RoleView>, id: Seq<char>) -> Option<RoleView>
    decreases table.len(),
{
    if table.len() == 0 {
        None
    } else if table.first().id == id {
        Some(table.first())
    } else {
        first_role_match(table.drop_first(), id)
    }
}

/// Group stubs resolved from a reference list, in reference order; each
/// match is attached not fully loaded, and a miss is skipped.
pub open spec fn resolve_group_refs(refs: Seq<Seq<char>>, table: Seq<GroupView>) -> Seq<GroupView>
    decreases refs.len(),
{
    if refs.len() == 0 {
        Seq::empty()
    } else {
        let rest = resolve_group_refs(refs.drop_last(), table);
        match first_group_match(table, refs.last()) {
            Some(g) => rest.push(GroupView { is_loaded_fully: false, ..g }),
            None => rest,
        }
    }
}

/// Role records resolved from a reference list, in reference order; a miss
/// is skipped.
pub open spec fn resolve_role_refs(refs: Seq<Seq<char>>, table: Seq<RoleView>) -> Seq<RoleView>
    decreases refs.len(),
{
    if refs.len() == 0 {
        Seq::empty()
    } else {
        let rest = resolve_role_refs(refs.drop_last(), table);
        match first_role_match(table, refs.last()) {
            Some(r) => rest.push(r),
            None => rest,
        }
    }
}

proof fn lemma_first_group_match_at(table: Seq<GroupView>, id: Seq<char>, j: int)
    requires
        0 <= j < table.len(),
        table[j].id == id,
        forall|k: int| 0 <= k < j ==> (#[trigger] table[k]).id != id,
    ensures
        first_group_match(table, id) == Some(table[j]),
    decreases table.len(),
{
    if j > 0 {
        lemma_first_group_match_at(table.drop_first(), id, j - 1);
    }
}

proof fn lemma_first_group_match_none(table: Seq<GroupView>, id: Seq<char>)
    requires
        forall|k: int| 0 <= k < table.len() ==> (#[trigger] table[k]).id != id,
    ensures
        first_group_match(table, id) is None,
    decreases table.len(),
{
    if table.len() > 0 {
        lemma_first_group_match_none(table.drop_first(), id);
    }
}

proof fn lemma_first_role_match_at(table: Seq<RoleView>, id: Seq<char>, j: int)
    requires
        0 <= j < table.len(),
        table[j].id == id,
        forall|k: int| 0 <= k < j ==> (#[trigger] table[k]).id != id,
    ensures
        first_role_match(table, id) == Some(table[j]),
    decreases table.len(),
{
    if j > 0 {
        lemma_first_role_match_at(table.drop_first(), id, j - 1);
    }
}

proof fn lemma_first_role_match_none(table: Seq<RoleView>, id: Seq<char>)
    requires
        forall|k: int| 0 <= k < table.len() ==> (#[trigger] table[k]).id != id,
    ensures
        first_role_match(table, id) is None,
    decreases table.len(),
{
    if table.len() > 0 {
        lemma_first_role_match_none(table.drop_first(), id);
    }
}

fn find_first_group(table: &Vec<Group>, id: &String) -> (r: Option<usize>)
    ensures
        match r {
            Some(j) => first_group_match(groups_view(table@), id@) == Some(table@[j as int]@) && j
                < table@.len(),
            None => first_group_match(groups_view(table@), id@) is None,
        },
{
    let mut j: usize = 0;
    while j < table.len()
        invariant
            j <= table@.len(),
            forall|k: int| 0 <= k < j ==> (#[trigger] groups_view(table@)[k]).id != id@,
        decreases table@.len() - j,
    {
        if str_eq(table[j].id.as_str(), id.as_str()) {
            proof {
                assert(groups_view(table@)[j as int].id == id@);
                lemma_first_group_match_at(groups_view(table@), id@, j as int);
            }
            return Some(j);
        }
        proof {
            assert(groups_view(table@)[j as int].id == table@[j as int]@.id);
        }
        j = j + 1;
    }
    proof {
        lemma_first_group_match_none(groups_view(table@), id@);
    }
    None
}

fn find_first_role(table: &Vec<Role>, id: &String) -> (r: Option<usize>)
    ensures
        match r {
            Some(j) => first_role_match(roles_view(table@), id@) == Some(table@[j as int]@) && j
                < table@.len(),
            None => first_role_match(roles_view(table@), id@) is None,
        },
{
    let mut j: usize = 0;
    while j < table.len()
        invariant
            j <= table@.len(),
            forall|k: int| 0 <= k < j ==> (#[trigger] roles_view(table@)[k]).id != id@,
        decreases table@.len() - j,
    {
        if str_eq(table[j].id.as_str(), id.as_str()) {
            proof {
                assert(roles_view(table@)[j as int].id == id@);
                lemma_first_role_match_at(roles_view(table@), id@, j as int);
            }
            return Some(j);
        }
        proof {
            assert(roles_view(table@)[j as int].id == table@[j as int]@.id);
        }
        j = j + 1;
    }
    proof {
        lemma_first_role_match_none(roles_view(table@), id@);
    }
    None
}

/// Resolves a group reference list against a side-loaded group table.
pub fn resolve_group_refs_exec(refs: &Vec<String>, table: &Vec<Group>) -> (out: Vec<Group>)
    ensures
        groups_view(out@) == resolve_group_refs(strs_view(refs@), groups_view(table@)),
{
    let ghost refs_v = strs_view(refs@);
    let ghost table_v = groups_view(table@);
    let mut out: Vec<Group> = Vec::new();
    let mut i: usize = 0;
    while i < refs.len()
        invariant
            i <= refs@.len(),
            refs_v == strs_view(refs@),
            table_v == groups_view(table@),
            refs_v.len() == refs@.len(),
            groups_view(out@) == resolve_group_refs(refs_v.take(i as int), table_v),
        decreases refs@.len() - i,
    {
        proof {
            assert(refs_v.take(i as int + 1).drop_last() =~= refs_v.take(i as int));
            assert(refs_v.take(i as int + 1).last() == refs_v[i as int]);
            assert(refs_v[i as int] == refs@[i as int]@);
        }
        match find_first_group(table, &refs[i]) {
            Some(j) => {
                let mut lg = crate::model::clone_group(&table[j]);
                lg.is_loaded_fully = false;
                out.push(lg);
                proof {
                    assert(lg@ =~= (GroupView { is_loaded_fully: false, ..table@[j as int]@ }));
                    assert(groups_view(out@) =~= resolve_group_refs(
                        refs_v.take(i as int + 1),
                        table_v,
                    ));
                }
            },
            None => {
                proof {
                    assert(groups_view(out@) =~= resolve_group_refs(
                        refs_v.take(i as int + 1),
                        table_v,
                    ));
                }
            },
        }
        i = i + 1;
    }
    proof {
        assert(refs_v.take(refs_v.len() as int) =~= refs_v);
    }
    out
}

/// Resolves a role reference list against a side-loaded role table.
pub fn resolve_role_refs_exec(refs: &Vec<String>, table: &Vec<Role>) -> (out: Vec<Role>)
    ensures
        roles_view(out@) == resolve_role_refs(strs_view(refs@), roles_view(table@)),
{
    let ghost refs_v = strs_view(refs@);
    let ghost table_v = roles_view(table@);
    let mut out: Vec<Role> = Vec::new();
    let mut i: usize = 0;
    while i < refs.len()
        invariant
            i <= refs@.len(),
            refs_v == strs_view(refs@),
            table_v == roles_view(table@),
            refs_v.len() == refs@.len(),
            roles_view(out@) == resolve_role_refs(refs_v.take(i as int), table_v),
        decreases refs@.len() - i,
    {
        proof {
            assert(refs_v.take(i as int + 1).drop_last() =~= refs_v.take(i as int));
            assert(refs_v.take(i as int + 1).last() == refs_v[i as int]);
            assert(refs_v[i as int] == refs@[i as int]@);
        }
        match find_first_role(table, &refs[i]) {
            Some(j) => {
                out.push(table[j].clone());
                proof {
                    assert(roles_view(out@) =~= resolve_role_refs(
                        refs_v.take(i as int + 1),
                        table_v,
                    ));
                }
            },
            None => {
                proof {
                    assert(roles_view(out@) =~= resolve_role_refs(
                        refs_v.take(i as int + 1),
                        table_v,
                    ));
                }
            },
        }
        i = i + 1;
    }
    proof {
        assert(refs_v.take(refs_v.len() as int) =~= refs_v);
    }
    out
}

/// The participant role types: a person whose roles are all outside this
/// set counts as a leader.
pub open spec fn is_tn_type(t: Seq<char>) -> bool {
    ||| t == "Biber"@
    ||| t == "Wolf"@
    ||| t == "Leitwolf"@
    ||| t == "Pfadi"@
    ||| t == "Leitpfadi"@
    ||| t == "Pio"@
}

/// Whether any of the roles carries a participant role type.
pub open spec fn spec_is_tn(roles: Seq<RoleView>) -> bool {
    exists|i: int| 0 <= i < roles.len() && is_tn_type((#[trigger] roles[i]).role_type)
}

fn is_tn_role_type(t: &str) -> (r: bool)
    ensures
        r == is_tn_type(t@),
{
    str_eq(t, "Biber") || str_eq(t, "Wolf") || str_eq(t, "Leitwolf") || str_eq(t, "Pfadi")
        || str_eq(t, "Leitpfadi") || str_eq(t, "Pio")
}

impl Person {
    /// Whether the person holds a participant role in any group. Undefined
    /// on a person without resolved roles; such a person must not be asked.
    pub fn is_tn(&self) -> (r: bool)
        requires
            self@.roles.len() != 0,
        ensures
            r == spec_is_tn(self@.roles),
    {
        let mut i: usize = 0;
        while i < self.roles.len()
            invariant
                i <= self.roles@.len(),
                forall|j: int| 0 <= j < i ==> !is_tn_type((#[trigger] self@.roles[j]).role_type),
            decreases self.roles@.len() - i,
        {
            if is_tn_role_type(self.roles[i].role_type.as_str()) {
                proof {
                    assert(is_tn_type(self@.roles[i as int].role_type));
                }
                return true;
            }
            proof {
                assert(self@.roles[i as int].role_type == self.roles@[i as int]@.role_type);
            }
            i = i + 1;
        }
        false
    }
}

/// The view of a group's resolved stub lists equals the element-wise view
/// of its stub vectors.
pub proof fn lemma_group_view_fields(g: Group)
    ensures
        g@.children == groups_view(g.children@),
        g@.hierarchies == match g.hierarchies {
            Some(hs) => Some(groups_view(hs@)),
            None => None::<Seq<GroupView>>,
        },
{
    assert forall|i: int| 0 <= i < g.children@.len() implies #[trigger] g@.children[i]
        == groups_view(g.children@)[i] by {
        assert(groups_view(g.children@)[i] == g.children@[i]@);
    }
    assert(g@.children =~= groups_view(g.children@));
    match g.hierarchies {
        Some(hs) => {
            assert forall|i: int| 0 <= i < hs@.len() implies #[trigger] g@.hierarchies.unwrap()[i]
                == groups_view(hs@)[i] by {
                assert(groups_view(hs@)[i] == hs@[i]@);
            }
            assert(g@.hierarchies.unwrap() =~= groups_view(hs@));
        },
        None => {},
    }
}

/// One group of a response after reference resolution: hierarchy and child
/// stubs attached from the side-loaded group table (or left empty when the
/// response carries no table), and the group marked fully loaded.
pub open spec fn spec_process_group(g: GroupView, linked: Option<LinkedView>) -> GroupView {
    let has_table = g.links is Some && linked is Some && linked.unwrap().groups is Some;
    let table = if has_table {
        linked.unwrap().groups.unwrap()
    } else {
        Seq::empty()
    };
    let hs = if has_table {
        match g.links.unwrap().hierarchies {
            Some(refs) => resolve_group_refs(refs, table),
            None => Seq::empty(),
        }
    } else {
        Seq::empty()
    };
    let cs = if has_table {
        match g.links.unwrap().children {
            Some(refs) => resolve_group_refs(refs, table),
            None => Seq::empty(),
        }
    } else {
        Seq::empty()
    };
    GroupView { hierarchies: Some(hs), children: cs, is_loaded_fully: true, ..g }
}

/// Attaches resolved hierarchy and child stubs to one group.
pub fn process_group(g: Group, linked: &Option<Linked>) -> (r: Group)
    ensures
        r@ == spec_process_group(g@, opt_linked_view(*linked)),
{
    let mut hs: Vec<Group> = Vec::new();
    let mut cs: Vec<Group> = Vec::new();
    if let Some(gl) = &g.links {
        if let Some(l) = linked {
            if let Some(table) = &l.groups {
                if let Some(refs) = &gl.hierarchies {
                    hs = resolve_group_refs_exec(refs, table);
                }
                if let Some(refs) = &gl.children {
                    cs = resolve_group_refs_exec(refs, table);
                }
            }
        }
    }
    let mut out = g;
    out.children = cs;
    out.hierarchies = Some(hs);
    out.is_loaded_fully = true;
    proof {
        lemma_group_view_fields(out);
        let sp = spec_process_group(g@, opt_linked_view(*linked));
        assert(out@.children =~= sp.children);
        assert(out@.hierarchies.unwrap() =~= sp.hierarchies.unwrap());
        assert(out@ =~= sp);
    }
    out
}

/// The roles a person's reference list resolves to, or the empty list when
/// the person or the response carries no role references.
pub open spec fn person_resolved_roles(p: PersonView, linked: Option<LinkedView>) -> Seq<RoleView> {
    if p.links.roles is Some && linked is Some && linked.unwrap().roles is Some {
        resolve_role_refs(p.links.roles.unwrap(), linked.unwrap().roles.unwrap())
    } else {
        Seq::empty()
    }
}

/// One person of a response after role resolution: resolved roles attached,
/// the leader flag derived, the completeness flag set, and, for a
/// membership listing, the requesting group recorded.
pub open spec fn spec_process_person(
    p: PersonView,
    linked: Option<LinkedView>,
    fully_loaded: bool,
    requested_by: Option<u16>,
) -> PersonView {
    let roles = person_resolved_roles(p, linked);
    PersonView {
        roles: roles,
        is_leiter: !spec_is_tn(roles),
        is_loaded_fully: fully_loaded,
        requested_by_group: match requested_by {
            Some(id) => id,
            None => p.requested_by_group,
        },
        ..p
    }
}

/// Attaches resolved roles to one person and classifies it. The person must
/// resolve to at least one role; the classification is undefined otherwise.
pub fn process_person(
    p: Person,
    linked: &Option<Linked>,
    fully_loaded: bool,
    requested_by: Option<u16>,
) -> (r: Person)
    requires
        person_resolved_roles(p@, opt_linked_view(*linked)).len() != 0,
    ensures
        r@ == spec_process_person(p@, opt_linked_view(*linked), fully_loaded, requested_by),
{
    let mut roles: Vec<Role> = Vec::new();
    if let Some(refs) = &p.links.roles {
        if let Some(l) = linked {
            if let Some(table) = &l.roles {
                roles = resolve_role_refs_exec(refs, table);
            }
        }
    }
    let mut out = p;
    out.roles = roles;
    proof {
        assert(out@.roles == person_resolved_roles(p@, opt_linked_view(*linked)));
    }
    let leiter = !out.is_tn();
    out.is_leiter = leiter;
    out.is_loaded_fully = fully_loaded;
    match requested_by {
        Some(id) => {
            out.requested_by_group = id;
        },
        None => {},
    }
    proof {
        assert(out@ =~= spec_process_person(
            p@,
            opt_linked_view(*linked),
            fully_loaded,
            requested_by,
        ));
    }
    out
}

/// All groups of one response, resolved.
pub open spec fn response_groups(r: ResponseView) -> Seq<GroupView> {
    match r.groups {
        Some(gs) => gs.map(|i: int, g: GroupView| spec_process_group(g, r.linked)),
        None => Seq::empty(),
    }
}

/// All people of one response, resolved.
pub open spec fn response_people(
    r: ResponseView,
    fully_loaded: bool,
    requested_by: Option<u16>,
) -> Seq<PersonView> {
    match r.people {
        Some(ps) => ps.map(
            |i: int, p: PersonView| spec_process_person(p, r.linked, fully_loaded, requested_by),
        ),
        None => Seq::empty(),
    }
}

/// Every person of the response resolves to at least one role, the
/// precondition for classifying it.
pub open spec fn response_people_ok(r: ResponseView) -> bool {
    match r.people {
        Some(ps) => forall|i: int|
            0 <= i < ps.len() ==> person_resolved_roles(#[trigger] ps[i], r.linked).len() != 0,
        None => true,
    }
}

/// Decides whether a response meets the classification precondition: every
/// person it lists resolves to at least one role. Callers check this before
/// handing a response to the people loaders.
pub fn response_people_ok_exec(r: &Response) -> (b: bool)
    ensures
        b == response_people_ok(r@),
{
    match &r.people {
        Some(ps) => {
            let mut i: usize = 0;
            while i < ps.len()
                invariant
                    i <= ps@.len(),
                    r.people is Some && ps@ == r.people.unwrap()@,
                    forall|k: int|
                        0 <= k < i ==> person_resolved_roles(
                            #[trigger] persons_view(ps@)[k],
                            opt_linked_view(r.linked),
                        ).len() != 0,
                decreases ps@.len() - i,
            {
                proof {
                    assert(persons_view(ps@)[i as int] == ps@[i as int]@);
                }
                let mut roles: Vec<Role> = Vec::new();
                if let Some(refs) = &ps[i].links.roles {
                    if let Some(l) = &r.linked {
                        if let Some(table) = &l.roles {
                            roles = resolve_role_refs_exec(refs, table);
                        }
                    }
                }
                if roles.len() == 0 {
                    proof {
                        assert(person_resolved_roles(
                            ps@[i as int]@,
                            opt_linked_view(r.linked),
                        ).len() == 0);
                        assert(r@.people.unwrap()[i as int] == ps@[i as int]@);
                    }
                    return false;
                }
                i = i + 1;
            }
            proof {
                assert forall|k: int| 0 <= k < r@.people.unwrap().len() implies
                    person_resolved_roles(
                        #[trigger] r@.people.unwrap()[k],
                        r@.linked,
                    ).len() != 0 by {
                    assert(r@.people.unwrap()[k] == persons_view(ps@)[k]);
                }
            }
            true
        },
        None => true,
    }
}

/// Resolves all groups of one response.
pub fn response_into_groups(r: &Response) -> (out: Vec<Group>)
    ensures
        groups_view(out@) == response_groups(r@),
{
    let mut out: Vec<Group> = Vec::new();
    if let Some(gs) = &r.groups {
        let ghost target = response_groups(r@);
        let mut j: usize = 0;
        while j < gs.len()
            invariant
                j <= gs@.len(),
                target == response_groups(r@),
                r.groups is Some && gs@ == r.groups.unwrap()@,
                target.len() == gs@.len(),
                out@.len() == j as nat,
                forall|k: int| 0 <= k < j ==> (#[trigger] out@[k])@ == target[k],
            decreases gs@.len() - j,
        {
            let g = crate::model::clone_group(&gs[j]);
            let pg = process_group(g, &r.linked);
            out.push(pg);
            j = j + 1;
        }
        proof {
            assert forall|k: int| 0 <= k < out@.len() implies groups_view(out@)[k] == target[k] by {
                assert(groups_view(out@)[k] == out@[k]@);
            }
            assert(groups_view(out@) =~= target);
        }
    } else {
        proof {
            assert(groups_view(out@) =~= response_groups(r@));
        }
    }
    out
}

/// Resolves all people of one response.
pub fn response_into_people(r: &Response, fully_loaded: bool, requested_by: Option<u16>) -> (out:
    Vec<Person>)
    requires
        response_people_ok(r@),
    ensures
        persons_view(out@) == response_people(r@, fully_loaded, requested_by),
{
    let mut out: Vec<Person> = Vec::new();
    if let Some(ps) = &r.people {
        let ghost target = response_people(r@, fully_loaded, requested_by);
        let mut j: usize = 0;
        while j < ps.len()
            invariant
                j <= ps@.len(),
                target == response_people(r@, fully_loaded, requested_by),
                response_people_ok(r@),
                r.people is Some && ps@ == r.people.unwrap()@,
                target.len() == ps@.len(),
                out@.len() == j as nat,
                forall|k: int| 0 <= k < j ==> (#[trigger] out@[k])@ == target[k],
            decreases ps@.len() - j,
        {
            let p = ps[j].clone();
            proof {
                assert(r@.people.unwrap()[j as int] == ps@[j as int]@);
                assert(person_resolved_roles(p@, opt_linked_view(r.linked)).len() != 0);
            }
            let pp = process_person(p, &r.linked, fully_loaded, requested_by);
            out.push(pp);
            j = j + 1;
        }
        proof {
            assert forall|k: int| 0 <= k < out@.len() implies persons_view(out@)[k]
                == target[k] by {
                assert(persons_view(out@)[k] == out@[k]@);
            }
            assert(persons_view(out@) =~= target);
        }
    } else {
        proof {
            assert(persons_view(out@) =~= response_people(r@, fully_loaded, requested_by));
        }
    }
    out
}

} // verus!
