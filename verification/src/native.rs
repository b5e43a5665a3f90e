//! The functions that the host provides, and the table that names them.

use crate::lexeme::{NativeFn, Value, ValueView};
use crate::resources::{Host, SpawnEvent};
use crate::semantics::{native_host, native_result};
use crate::table::Table;
use vstd::prelude::*;
use vstd::string::*;

verus! {

/// The views of a sequence of values, one for one.
pub open spec fn values_view(s: Seq<Value>) -> Seq<ValueView> {
    Seq::new(s.len(), |i: int| s[i]@)
}

/// The view of a value that may be missing.
pub open spec fn value_view(v: Option<Value>) -> Option<ValueView> {
    match v {
        Some(x) => Some(x@),
        None => None,
    }
}

/// The names of the host functions.
pub open spec fn native_table() -> Map<Seq<char>, NativeFn> {
    Map::empty().insert("spawn_ball"@, NativeFn::SpawnBall)
}

/// Asks the host to spawn a ball. It takes any arguments and returns no
/// value.
pub fn native_spawn_ball(_args: Vec<Value>, host: &mut Host) -> (r: Option<Value>)
    ensures
        r is None,
        final(host)@ == native_host(NativeFn::SpawnBall, values_view(_args@), old(host)@),
{
    host.spawn(SpawnEvent {  });
    None
}

/// Calls the host function `f` with the values `args`.
pub fn call_native(f: NativeFn, args: Vec<Value>, host: &mut Host) -> (r: Option<Value>)
    ensures
        value_view(r) == native_result(f, values_view(args@)),
        final(host)@ == native_host(f, values_view(args@), old(host)@),
{
    match f {
        NativeFn::SpawnBall => native_spawn_ball(args, host),
    }
}

/// The table of the host functions by name.
pub fn build_native_fn_table() -> (t: Table<NativeFn>)
    ensures
        t@ == native_table(),
{
    let mut t: Table<NativeFn> = Table::new();
    t.insert(String::from_str("spawn_ball"), NativeFn::SpawnBall);
    t
}

} // verus!
