//! The variables in scope during evaluation, held in a persistent `im_rc::HashMap`.
use vstd::prelude::*;
use std::collections::hash_map::RandomState;
use std::rc::Rc;
use im_rc::hashmap::HashMap;
use crate::expr::ExprV;
use crate::eval::Evaluated;

verus! {

#[verifier::external_type_specification]
#[verifier::external_body]
#[verifier::reject_recursive_types(K)]
#[verifier::reject_recursive_types(V)]
#[verifier::reject_recursive_types(S)]
pub struct ExImHashMap<K, V, S>(im_rc::hashmap::HashMap<K, V, S>);

/// Names bound to evaluated expressions. Cloning one is cheap: the maps share structure.
pub type Scope = HashMap<String, Rc<Evaluated>, RandomState>;

/// What an `im_rc::HashMap` scope binds: each name, by its characters, to the
/// view of the evaluated expression in its `Rc`.
pub uninterp spec fn scope_contents(m: HashMap<String, Rc<Evaluated>, RandomState>) -> Map<Seq<char>, ExprV>;

/// The scope that binds nothing.
pub open spec fn empty_env() -> Map<Seq<char>, ExprV> {
    Map::empty()
}

/// Calls `im_rc::HashMap::new`. Claimed: the new map binds nothing.
#[verifier::external_body]
pub(crate) fn scope_new() -> (r: Scope)
    ensures
        scope_contents(r) == empty_env(),
{
    HashMap::new()
}

/// Calls `im_rc::HashMap::get` and borrows the evaluated expression inside the
/// `Rc` it finds. Claimed: a value comes back exactly when the name is bound,
/// and it is the value bound to that name.
#[verifier::external_body]
pub(crate) fn scope_get<'a>(vars: &'a Scope, name: &String) -> (r: Option<&'a Evaluated>)
    ensures
        r is Some <==> scope_contents(*vars).dom().contains(name@),
        r matches Some(v) ==> v.dv() == scope_contents(*vars)[name@],
{
    vars.get(name).map(|v| &**v)
}

/// Calls `im_rc::HashMap::contains_key`. Claimed: the answer is whether the
/// name is bound.
#[verifier::external_body]
pub(crate) fn scope_contains(vars: &Scope, name: &String) -> (r: bool)
    ensures
        r == scope_contents(*vars).dom().contains(name@),
{
    vars.contains_key(name)
}

/// Calls `im_rc::HashMap::insert` with the value in a new `Rc`. Claimed: the
/// name is then bound to the value, replacing any earlier binding of the same
/// name, and every other binding is unchanged.
#[verifier::external_body]
pub(crate) fn scope_insert(vars: &mut Scope, name: String, value: Evaluated)
    ensures
        scope_contents(*final(vars)) == scope_contents(*old(vars)).insert(name@, value.dv()),
{
    vars.insert(name, Rc::new(value));
}

/// Calls `im_rc::HashMap::clone`. Claimed: the copy binds the same names to
/// the same values (the two maps share structure; later inserts into one do
/// not show in the other).
#[verifier::external_body]
pub(crate) fn scope_clone(vars: &Scope) -> (r: Scope)
    ensures
        scope_contents(r) == scope_contents(*vars),
{
    vars.clone()
}

/// A scope that binds nothing.
pub fn empty_scope() -> (r: Scope)
    ensures
        scope_contents(r) == empty_env(),
{
    scope_new()
}

/// Binds `name` to `value` in `vars`, replacing any earlier binding of `name`
/// and keeping every other binding.
pub fn bind(vars: &mut Scope, name: String, value: Evaluated)
    ensures
        scope_contents(*final(vars)) == scope_contents(*old(vars)).insert(name@, value.dv()),
{
    scope_insert(vars, name, value)
}

} // verus!
