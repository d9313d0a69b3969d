//! Field-level merge policy for reconciling two partial views of the same
//! logical entity: fill-if-missing for optional scalars, concatenation for
//! multi-valued fields.

use vstd::prelude::*;

use crate::model::{Person, PersonLinksView, PersonView};

verus! {

/// Fill-if-missing: `option_a` keeps its value if present, otherwise takes
/// `option_b`'s value. First-populated wins; a present value is never
/// overwritten.
pub fn merge_option_if_needed<T>(option_a: &mut Option<T>, option_b: Option<T>)
    ensures
        (*old(option_a)) is Some ==> *final(option_a) == *old(option_a),
        (*old(option_a)) is None ==> *final(option_a) == option_b,
{
    if option_a.is_none() && option_b.is_some() {
        *option_a = Some(option_b.unwrap());
    }
}

/// Optional-list merge: absent takes the other side; two present lists are
/// concatenated, `option_a`'s elements first, both orders preserved.
pub fn merge_option_vec_if_needed<T>(option_a: Option<Vec<T>>, option_b: Option<Vec<T>>) -> (r:
    Option<Vec<T>>)
    ensures
        option_a is None && option_b is None ==> r is None,
        option_a is None && option_b is Some ==> r == option_b,
        option_a is Some && option_b is None ==> r == option_a,
        option_a is Some && option_b is Some ==> r is Some && r.unwrap()@ == option_a.unwrap()@
            + option_b.unwrap()@,
{
    if option_a.is_none() && option_b.is_some() {
        return option_b;
    } else if option_a.is_some() && option_b.is_some() {
        let mut vec1: Vec<T> = option_a.unwrap();
        let mut vec2: Vec<T> = option_b.unwrap();
        vec1.append(&mut vec2);
        return Some(vec1);
    }
    return option_a;
}

/// Fill-if-missing on one optional field.
pub open spec fn fill_opt<T>(a: Option<T>, b: Option<T>) -> Option<T> {
    if a is Some {
        a
    } else {
        b
    }
}

/// Optional-list merge at the view level.
pub open spec fn merge_opt_seq<T>(a: Option<Seq<T>>, b: Option<Seq<T>>) -> Option<Seq<T>> {
    match (a, b) {
        (None, Some(bs)) => Some(bs),
        (Some(xs), Some(bs)) => Some(xs + bs),
        _ => a,
    }
}

/// The merge of two partial views of the same person: optional scalars are
/// filled if missing (first populated wins), role lists are concatenated in
/// order, and the completeness and leader flags are or-ed. All other fields
/// keep the base person's values.
pub open spec fn spec_merge_persons(a: PersonView, b: PersonView) -> PersonView {
    PersonView {
        email: fill_opt(a.email, b.email),
        gender: fill_opt(a.gender, b.gender),
        address: fill_opt(a.address, b.address),
        zip_code: fill_opt(a.zip_code, b.zip_code),
        town: fill_opt(a.town, b.town),
        country: fill_opt(a.country, b.country),
        household_key: fill_opt(a.household_key, b.household_key),
        picture: fill_opt(a.picture, b.picture),
        links: (PersonLinksView {
            primary_group: a.links.primary_group,
            roles: merge_opt_seq(a.links.roles, b.links.roles),
        }),
        roles: a.roles + b.roles,
        is_loaded_fully: a.is_loaded_fully || b.is_loaded_fully,
        is_leiter: a.is_leiter || b.is_leiter,
        ..a
    }
}

impl Person {
    /// Merges another partial view of the same logical person into this
    /// one, field class by field class.
    pub fn merge_persons(&mut self, person: Person)
        ensures
            final(self)@ == spec_merge_persons(old(self)@, person@),
    {
        let ghost incoming_view = person@;
        let mut person = person;
        let mut a = self.email.take();
        merge_option_if_needed(&mut a, person.email);
        self.email = a;
        let mut a = self.gender.take();
        merge_option_if_needed(&mut a, person.gender);
        self.gender = a;
        let mut a = self.address.take();
        merge_option_if_needed(&mut a, person.address);
        self.address = a;
        let mut a = self.zip_code.take();
        merge_option_if_needed(&mut a, person.zip_code);
        self.zip_code = a;
        let mut a = self.town.take();
        merge_option_if_needed(&mut a, person.town);
        self.town = a;
        let mut a = self.country.take();
        merge_option_if_needed(&mut a, person.country);
        self.country = a;
        let mut a = self.household_key.take();
        merge_option_if_needed(&mut a, person.household_key);
        self.household_key = a;
        let mut a = self.picture.take();
        merge_option_if_needed(&mut a, person.picture);
        self.picture = a;
        let lr = self.links.roles.take();
        self.links.roles = merge_option_vec_if_needed(lr, person.links.roles);
        self.roles.append(&mut person.roles);
        self.is_loaded_fully = self.is_loaded_fully || person.is_loaded_fully;
        self.is_leiter = self.is_leiter || person.is_leiter;
        proof {
            let m = spec_merge_persons(old(self)@, incoming_view);
            assert(self@.roles =~= m.roles);
            match &self.links.roles {
                Some(v) => {
                    assert(self@.links.roles.unwrap() =~= m.links.roles.unwrap());
                },
                None => {},
            }
            assert(self@.links =~= m.links);
            assert(self@ =~= m);
        }
    }
}

} // verus!
