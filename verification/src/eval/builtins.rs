//! The native functions known to the language: their names and arities.

use vstd::prelude::*;

use crate::error::{Error, Result};
use crate::text::{concat3, str_eq};
use crate::eval::interp::{apply_spec, apply_value, vagrees, DEFAULT_DEPTH};
use crate::eval::value::{values_view, SpecValue, Value};
pub use crate::eval::value::NativeFunction;

verus! {

/// The arity of a native function, for the names that denote one.
pub open spec fn native_arity(name: Seq<char>) -> Option<usize> {
    if name == "show"@ || name == "length"@ || name == "isSome"@ || name == "isNone"@
        || name == "all"@ || name == "any"@ {
        Some(1)
    } else if name == "contains"@ || name == "startsWith"@ || name == "endsWith"@
        || name == "unwrapOr"@ || name == "map"@ || name == "filter"@ {
        Some(2)
    } else {
        None
    }
}

/// The native function names in registry order.
pub open spec fn native_names() -> Seq<Seq<char>> {
    seq![
        "show"@, "length"@, "isSome"@, "isNone"@, "contains"@, "startsWith"@,
        "endsWith"@, "unwrapOr"@, "all"@, "any"@, "map"@, "filter"@,
    ]
}

/// The native names are twelve distinct strings.
proof fn lemma_native_names()
    ensures
        native_arity("show"@) == Some(1usize),
        native_arity("length"@) == Some(1usize),
        native_arity("isSome"@) == Some(1usize),
        native_arity("isNone"@) == Some(1usize),
        native_arity("contains"@) == Some(2usize),
        native_arity("startsWith"@) == Some(2usize),
        native_arity("endsWith"@) == Some(2usize),
        native_arity("unwrapOr"@) == Some(2usize),
        native_arity("all"@) == Some(1usize),
        native_arity("any"@) == Some(1usize),
        native_arity("map"@) == Some(2usize),
        native_arity("filter"@) == Some(2usize),
{
    reveal_strlit("show");
    reveal_strlit("length");
    reveal_strlit("isSome");
    reveal_strlit("isNone");
    reveal_strlit("contains");
    reveal_strlit("startsWith");
    reveal_strlit("endsWith");
    reveal_strlit("unwrapOr");
    reveal_strlit("all");
    reveal_strlit("any");
    reveal_strlit("map");
    reveal_strlit("filter");
    assert("show"@.len() == 4 && "length"@.len() == 6 && "isSome"@.len() == 6 && "isNone"@.len() == 6 && "all"@.len() == 3 && "any"@.len() == 3);
    assert("contains"@.len() == 8 && "startsWith"@.len() == 10 && "endsWith"@.len() == 8 && "unwrapOr"@.len() == 8 && "map"@.len() == 3 && "filter"@.len() == 6);
    assert("map"@[0] == 'm' && "all"@[0] == 'a' && "any"@[0] == 'a');
    assert("filter"@[0] == 'f' && "length"@[0] == 'l' && "isSome"@[0] == 'i' && "isNone"@[0] == 'i');
}

/// Whether `name` denotes a native function.
pub fn declared(name: &str) -> (b: bool)
    ensures
        b == (native_arity(name@) is Some),
{
    str_eq(name, "show") || str_eq(name, "length") || str_eq(name, "isSome")
        || str_eq(name, "isNone") || str_eq(name, "contains") || str_eq(name, "startsWith")
        || str_eq(name, "endsWith") || str_eq(name, "unwrapOr") || str_eq(name, "all")
        || str_eq(name, "any") || str_eq(name, "map") || str_eq(name, "filter")
}

/// The number of arguments a native function takes.
pub fn arity(name: &str) -> (r: Result<usize>)
    ensures
        match r {
            Ok(n) => native_arity(name@) == Some(n),
            Err(e) => native_arity(name@) is None && e.code_spec() == crate::error::ErrorCode::Reconf
                && e.message_spec() == "unknown native `"@ + name@ + "`"@,
        },
{
    if str_eq(name, "show") || str_eq(name, "length") || str_eq(name, "isSome")
        || str_eq(name, "isNone") || str_eq(name, "all") || str_eq(name, "any") {
        Ok(1)
    } else if str_eq(name, "contains") || str_eq(name, "startsWith") || str_eq(name, "endsWith")
        || str_eq(name, "unwrapOr") || str_eq(name, "map") || str_eq(name, "filter") {
        Ok(2)
    } else {
        Err(Error::new(concat3("unknown native `", name, "`").as_str()))
    }
}

impl NativeFunction {
    /// The native function with no arguments applied yet.
    pub fn new(name: &str) -> (f: NativeFunction)
        ensures
            f.name@ == name@,
            f.args@.len() == 0,
    {
        NativeFunction { name: name.to_owned(), args: Vec::new() }
    }

    /// Applies one more argument; once the function has as many arguments
    /// as its arity it is called.
    pub fn apply(self, arg: Value) -> (r: Result<Value>)
        ensures
            vagrees(r, apply_spec(SpecValue::Native { name: self.name@, args: values_view(self.args@) }, arg@, DEFAULT_DEPTH as nat)),
    {
        apply_value(Value::Native(self), arg, DEFAULT_DEPTH)
    }
}

/// What the registry knows of one native function.
#[derive(Clone, Copy, Debug, PartialEq, Eq)]
pub struct NativeSpec {
    name: &'static str,
    arity: usize,
}

impl NativeSpec {
    pub closed spec fn name_spec(&self) -> Seq<char> {
        self.name@
    }

    pub closed spec fn arity_spec(&self) -> usize {
        self.arity
    }

    pub fn name(&self) -> (n: &str)
        ensures
            n@ == self.name_spec(),
    {
        self.name
    }

    pub fn arity(&self) -> (n: usize)
        ensures
            n == self.arity_spec(),
    {
        self.arity
    }
}

/// The single source of the native functions' names and arities.
pub struct NativeRegistry;

impl NativeRegistry {
    /// The entry for `name`; an unknown name is refused.
    pub fn get(name: &str) -> (r: Result<NativeSpec>)
        ensures
            match r {
                Ok(spec) => spec.name_spec() == name@ && native_arity(name@) == Some(spec.arity_spec()),
                Err(e) => native_arity(name@) is None && e.code_spec() == crate::error::ErrorCode::Reconf
                && e.message_spec() == "unknown native `"@ + name@ + "`"@,
            },
    {
        let entries = Self::all();
        let mut i: usize = 0;
        while i < entries.len()
            invariant
                i <= entries@.len(),
                entries@.len() == native_names().len(),
                forall|j: int| 0 <= j < entries@.len() ==> #[trigger] entries@[j].name_spec() == native_names()[j]
                    && native_arity(native_names()[j]) == Some(entries@[j].arity_spec()),
                forall|j: int| 0 <= j < i ==> native_names()[j] != name@,
            decreases entries.len() - i,
        {
            assert(entries@[i as int].name_spec() == native_names()[i as int]);
            if str_eq(entries[i].name, name) {
                return Ok(entries[i]);
            }
            i = i + 1;
        }
        proof {
            assert forall|j: int| 0 <= j < native_names().len() implies native_names()[j] != name@ by {}
            assert(native_names()[0] == "show"@);
            assert(native_names()[1] == "length"@);
            assert(native_names()[2] == "isSome"@);
            assert(native_names()[3] == "isNone"@);
            assert(native_names()[4] == "contains"@);
            assert(native_names()[5] == "startsWith"@);
            assert(native_names()[6] == "endsWith"@);
            assert(native_names()[7] == "unwrapOr"@);
            assert(native_names()[8] == "all"@);
            assert(native_names()[9] == "any"@);
            assert(native_names()[10] == "map"@);
            assert(native_names()[11] == "filter"@);
        }
        Err(Error::new(concat3("unknown native `", name, "`").as_str()))
    }

    /// Whether `name` denotes a native function.
    pub fn declared(name: &str) -> (b: bool)
        ensures
            b == (native_arity(name@) is Some),
    {
        declared(name)
    }

    /// Every native function, in registry order.
    pub fn all() -> (v: Vec<NativeSpec>)
        ensures
            v@.len() == native_names().len(),
            forall|j: int| 0 <= j < v@.len() ==> #[trigger] v@[j].name_spec() == native_names()[j]
                && native_arity(native_names()[j]) == Some(v@[j].arity_spec()),
    {
        proof {
            lemma_native_names();
        }
        let v = vec![
            NativeSpec { name: "show", arity: 1 },
            NativeSpec { name: "length", arity: 1 },
            NativeSpec { name: "isSome", arity: 1 },
            NativeSpec { name: "isNone", arity: 1 },
            NativeSpec { name: "contains", arity: 2 },
            NativeSpec { name: "startsWith", arity: 2 },
            NativeSpec { name: "endsWith", arity: 2 },
            NativeSpec { name: "unwrapOr", arity: 2 },
            NativeSpec { name: "all", arity: 1 },
            NativeSpec { name: "any", arity: 1 },
            NativeSpec { name: "map", arity: 2 },
            NativeSpec { name: "filter", arity: 2 },
        ];
        v
    }
}

} // verus!
