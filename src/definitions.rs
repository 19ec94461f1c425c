//! Built-in mappings for primitives, prelude types and common
//! standard-library types.

use vstd::prelude::*;
use crate::groups::TypeGroups;
use crate::text::{opt_chars, str_eq, strs_view};

verus! {

/// Canonical name of a language primitive spelled out by its full path.
pub open spec fn primitive_mapping(p: Seq<char>) -> Option<Seq<char>> {
    if p == "std::primitive::i8"@ || p == "core::primitive::i8"@ || p == "std::i8"@ || p == "core::i8"@ {
        Some("i8"@)
    } else if p == "std::primitive::i16"@ || p == "core::primitive::i16"@ || p == "std::i16"@ || p == "core::i16"@ {
        Some("i16"@)
    } else if p == "std::primitive::i32"@ || p == "core::primitive::i32"@ || p == "std::i32"@ || p == "core::i32"@ {
        Some("i32"@)
    } else if p == "std::primitive::i64"@ || p == "core::primitive::i64"@ || p == "std::i64"@ || p == "core::i64"@ {
        Some("i64"@)
    } else if p == "std::primitive::i128"@ || p == "core::primitive::i128"@ || p == "std::i128"@ || p == "core::i128"@ {
        Some("i128"@)
    } else if p == "std::primitive::isize"@ || p == "core::primitive::isize"@ || p == "std::isize"@ || p == "core::isize"@ {
        Some("isize"@)
    } else if p == "std::primitive::u8"@ || p == "core::primitive::u8"@ || p == "std::u8"@ || p == "core::u8"@ {
        Some("u8"@)
    } else if p == "std::primitive::u16"@ || p == "core::primitive::u16"@ || p == "std::u16"@ || p == "core::u16"@ {
        Some("u16"@)
    } else if p == "std::primitive::u32"@ || p == "core::primitive::u32"@ || p == "std::u32"@ || p == "core::u32"@ {
        Some("u32"@)
    } else if p == "std::primitive::u64"@ || p == "core::primitive::u64"@ || p == "std::u64"@ || p == "core::u64"@ {
        Some("u64"@)
    } else if p == "std::primitive::u128"@ || p == "core::primitive::u128"@ || p == "std::u128"@ || p == "core::u128"@ {
        Some("u128"@)
    } else if p == "std::primitive::usize"@ || p == "core::primitive::usize"@ || p == "std::usize"@ || p == "core::usize"@ {
        Some("usize"@)
    } else if p == "std::primitive::f32"@ || p == "core::primitive::f32"@ || p == "std::f32"@ || p == "core::f32"@ {
        Some("f32"@)
    } else if p == "std::primitive::f64"@ || p == "core::primitive::f64"@ || p == "std::f64"@ || p == "core::f64"@ {
        Some("f64"@)
    } else if p == "std::primitive::bool"@ || p == "core::primitive::bool"@ || p == "std::bool"@ || p == "core::bool"@ {
        Some("bool"@)
    } else if p == "std::primitive::char"@ || p == "core::primitive::char"@ || p == "std::char"@ || p == "core::char"@ {
        Some("char"@)
    } else if p == "std::primitive::str"@ || p == "core::primitive::str"@ || p == "std::str"@ || p == "core::str"@ {
        Some("str"@)
    } else {
        None
    }
}

/// Canonical name of a prelude type spelled out by its full path.
pub open spec fn prelude_mapping(p: Seq<char>) -> Option<Seq<char>> {
    if p == "std::string::String"@ {
        Some("String"@)
    } else if p == "std::vec::Vec"@ || p == "alloc::vec::Vec"@ {
        Some("Vec"@)
    } else if p == "std::option::Option"@ || p == "core::option::Option"@ {
        Some("Option"@)
    } else if p == "std::result::Result"@ {
        Some("Result"@)
    } else if p == "std::boxed::Box"@ || p == "alloc::boxed::Box"@ {
        Some("Box"@)
    } else {
        None
    }
}

/// Canonical name of a common standard-library type spelled out by its full path.
pub open spec fn common_std_mapping(p: Seq<char>) -> Option<Seq<char>> {
    if p == "std::collections::HashMap"@ || p == "std::collections::hash_map::HashMap"@ {
        Some("HashMap"@)
    } else if p == "std::collections::HashSet"@ || p == "std::collections::hash_set::HashSet"@ {
        Some("HashSet"@)
    } else if p == "std::collections::BTreeMap"@ || p == "std::collections::btree_map::BTreeMap"@ {
        Some("BTreeMap"@)
    } else if p == "std::collections::BTreeSet"@ || p == "std::collections::btree_set::BTreeSet"@ {
        Some("BTreeSet"@)
    } else if p == "std::collections::LinkedList"@ || p == "std::collections::linked_list::LinkedList"@ {
        Some("LinkedList"@)
    } else if p == "std::borrow::Cow"@ {
        Some("Cow"@)
    } else if p == "std::cell::RefCell"@ || p == "core::cell::RefCell"@ {
        Some("RefCell"@)
    } else if p == "std::sync::Arc"@ || p == "alloc::sync::Arc"@ {
        Some("Arc"@)
    } else if p == "std::rc::Rc"@ || p == "alloc::rc::Rc"@ {
        Some("Rc"@)
    } else {
        None
    }
}

/// The built-in mapping of `p` under the enabled groups, consulted in the
/// order primitives, prelude, common standard-library types.
pub open spec fn builtin_mapping(p: Seq<char>, g: TypeGroups) -> Option<Seq<char>> {
    if g.primitives && primitive_mapping(p) is Some {
        primitive_mapping(p)
    } else if g.prelude && prelude_mapping(p) is Some {
        prelude_mapping(p)
    } else if g.common_std && common_std_mapping(p) is Some {
        common_std_mapping(p)
    } else {
        None
    }
}


/// Looks `path` up among the language primitives.
pub fn get_primitive_mapping(path: &str) -> (r: Option<&'static str>)
    ensures
        opt_chars(r) == primitive_mapping(path@),
{
    if str_eq(path, "std::primitive::i8") || str_eq(path, "core::primitive::i8") || str_eq(path, "std::i8") || str_eq(path, "core::i8") {
        return Some("i8");
    }
    if str_eq(path, "std::primitive::i16") || str_eq(path, "core::primitive::i16") || str_eq(path, "std::i16") || str_eq(path, "core::i16") {
        return Some("i16");
    }
    if str_eq(path, "std::primitive::i32") || str_eq(path, "core::primitive::i32") || str_eq(path, "std::i32") || str_eq(path, "core::i32") {
        return Some("i32");
    }
    if str_eq(path, "std::primitive::i64") || str_eq(path, "core::primitive::i64") || str_eq(path, "std::i64") || str_eq(path, "core::i64") {
        return Some("i64");
    }
    if str_eq(path, "std::primitive::i128") || str_eq(path, "core::primitive::i128") || str_eq(path, "std::i128") || str_eq(path, "core::i128") {
        return Some("i128");
    }
    if str_eq(path, "std::primitive::isize") || str_eq(path, "core::primitive::isize") || str_eq(path, "std::isize") || str_eq(path, "core::isize") {
        return Some("isize");
    }
    if str_eq(path, "std::primitive::u8") || str_eq(path, "core::primitive::u8") || str_eq(path, "std::u8") || str_eq(path, "core::u8") {
        return Some("u8");
    }
    if str_eq(path, "std::primitive::u16") || str_eq(path, "core::primitive::u16") || str_eq(path, "std::u16") || str_eq(path, "core::u16") {
        return Some("u16");
    }
    if str_eq(path, "std::primitive::u32") || str_eq(path, "core::primitive::u32") || str_eq(path, "std::u32") || str_eq(path, "core::u32") {
        return Some("u32");
    }
    if str_eq(path, "std::primitive::u64") || str_eq(path, "core::primitive::u64") || str_eq(path, "std::u64") || str_eq(path, "core::u64") {
        return Some("u64");
    }
    if str_eq(path, "std::primitive::u128") || str_eq(path, "core::primitive::u128") || str_eq(path, "std::u128") || str_eq(path, "core::u128") {
        return Some("u128");
    }
    if str_eq(path, "std::primitive::usize") || str_eq(path, "core::primitive::usize") || str_eq(path, "std::usize") || str_eq(path, "core::usize") {
        return Some("usize");
    }
    if str_eq(path, "std::primitive::f32") || str_eq(path, "core::primitive::f32") || str_eq(path, "std::f32") || str_eq(path, "core::f32") {
        return Some("f32");
    }
    if str_eq(path, "std::primitive::f64") || str_eq(path, "core::primitive::f64") || str_eq(path, "std::f64") || str_eq(path, "core::f64") {
        return Some("f64");
    }
    if str_eq(path, "std::primitive::bool") || str_eq(path, "core::primitive::bool") || str_eq(path, "std::bool") || str_eq(path, "core::bool") {
        return Some("bool");
    }
    if str_eq(path, "std::primitive::char") || str_eq(path, "core::primitive::char") || str_eq(path, "std::char") || str_eq(path, "core::char") {
        return Some("char");
    }
    if str_eq(path, "std::primitive::str") || str_eq(path, "core::primitive::str") || str_eq(path, "std::str") || str_eq(path, "core::str") {
        return Some("str");
    }
    None
}

/// Looks `path` up among the prelude types.
pub fn get_prelude_mapping(path: &str) -> (r: Option<&'static str>)
    ensures
        opt_chars(r) == prelude_mapping(path@),
{
    if str_eq(path, "std::string::String") {
        return Some("String");
    }
    if str_eq(path, "std::vec::Vec") || str_eq(path, "alloc::vec::Vec") {
        return Some("Vec");
    }
    if str_eq(path, "std::option::Option") || str_eq(path, "core::option::Option") {
        return Some("Option");
    }
    if str_eq(path, "std::result::Result") {
        return Some("Result");
    }
    if str_eq(path, "std::boxed::Box") || str_eq(path, "alloc::boxed::Box") {
        return Some("Box");
    }
    None
}

/// Looks `path` up among the common standard-library types.
pub fn get_common_std_mapping(path: &str) -> (r: Option<&'static str>)
    ensures
        opt_chars(r) == common_std_mapping(path@),
{
    if str_eq(path, "std::collections::HashMap") || str_eq(path, "std::collections::hash_map::HashMap") {
        return Some("HashMap");
    }
    if str_eq(path, "std::collections::HashSet") || str_eq(path, "std::collections::hash_set::HashSet") {
        return Some("HashSet");
    }
    if str_eq(path, "std::collections::BTreeMap") || str_eq(path, "std::collections::btree_map::BTreeMap") {
        return Some("BTreeMap");
    }
    if str_eq(path, "std::collections::BTreeSet") || str_eq(path, "std::collections::btree_set::BTreeSet") {
        return Some("BTreeSet");
    }
    if str_eq(path, "std::collections::LinkedList") || str_eq(path, "std::collections::linked_list::LinkedList") {
        return Some("LinkedList");
    }
    if str_eq(path, "std::borrow::Cow") {
        return Some("Cow");
    }
    if str_eq(path, "std::cell::RefCell") || str_eq(path, "core::cell::RefCell") {
        return Some("RefCell");
    }
    if str_eq(path, "std::sync::Arc") || str_eq(path, "alloc::sync::Arc") {
        return Some("Arc");
    }
    if str_eq(path, "std::rc::Rc") || str_eq(path, "alloc::rc::Rc") {
        return Some("Rc");
    }
    None
}

/// Looks `path` up in the built-in mappings of the enabled groups.
pub fn get_builtin_mapping(path: &str, groups: TypeGroups) -> (r: Option<&'static str>)
    ensures
        opt_chars(r) == builtin_mapping(path@, groups),
{
    if groups.primitives {
        if let Some(result) = get_primitive_mapping(path) {
            return Some(result);
        }
    }
    if groups.prelude {
        if let Some(result) = get_prelude_mapping(path) {
            return Some(result);
        }
    }
    if groups.common_std {
        if let Some(result) = get_common_std_mapping(path) {
            return Some(result);
        }
    }
    None
}

/// The canonical names of the language primitives.
pub open spec fn primitive_names() -> Seq<Seq<char>> {
    seq!["i8"@, "i16"@, "i32"@, "i64"@, "i128"@, "isize"@, "u8"@, "u16"@, "u32"@, "u64"@, "u128"@, "usize"@, "f32"@, "f64"@, "bool"@, "char"@, "str"@]
}

/// The canonical names of the prelude types.
pub open spec fn prelude_names() -> Seq<Seq<char>> {
    seq!["String"@, "Vec"@, "Option"@, "Result"@, "Box"@]
}

/// The canonical names of the common standard-library types.
pub open spec fn common_std_names() -> Seq<Seq<char>> {
    seq!["HashMap"@, "HashSet"@, "BTreeMap"@, "BTreeSet"@, "LinkedList"@, "Cow"@, "RefCell"@, "Arc"@, "Rc"@]
}

/// The canonical names of the enabled groups, in group order.
pub open spec fn builtin_names(g: TypeGroups) -> Seq<Seq<char>> {
    (if g.primitives {
        primitive_names()
    } else {
        Seq::empty()
    }) + (if g.prelude {
        prelude_names()
    } else {
        Seq::empty()
    }) + (if g.common_std {
        common_std_names()
    } else {
        Seq::empty()
    })
}

/// Appends `names` to `out`.
fn push_all(out: &mut Vec<&'static str>, names: Vec<&'static str>)
    ensures
        strs_view(final(out)@) == strs_view(old(out)@) + strs_view(names@),
{
    let mut i: usize = 0;
    while i < names.len()
        invariant
            i <= names@.len(),
            strs_view(out@) == strs_view(old(out)@) + strs_view(names@).subrange(0, i as int),
        decreases names.len() - i,
    {
        let ghost before = out@;
        out.push(names[i]);
        assert(strs_view(out@) =~= strs_view(before).push(names@[i as int]@));
        assert(strs_view(names@).subrange(0, i + 1) =~= strs_view(names@).subrange(0, i as int).push(
            names@[i as int]@,
        ));
        i = i + 1;
    }
    assert(strs_view(names@).subrange(0, i as int) =~= strs_view(names@));
}

/// The canonical names of the enabled groups.
pub fn builtin_type_names(groups: TypeGroups) -> (r: Vec<&'static str>)
    ensures
        strs_view(r@) == builtin_names(groups),
{
    let mut r: Vec<&'static str> = Vec::new();
    if groups.primitives {
        let names: Vec<&'static str> = vec!["i8", "i16", "i32", "i64", "i128", "isize", "u8", "u16", "u32", "u64", "u128", "usize", "f32", "f64", "bool", "char", "str"];
        assert(strs_view(names@) =~= primitive_names());
        push_all(&mut r, names);
    }
    let ghost after_primitives = strs_view(r@);
    if groups.prelude {
        let names: Vec<&'static str> = vec!["String", "Vec", "Option", "Result", "Box"];
        assert(strs_view(names@) =~= prelude_names());
        push_all(&mut r, names);
    }
    let ghost after_prelude = strs_view(r@);
    if groups.common_std {
        let names: Vec<&'static str> = vec!["HashMap", "HashSet", "BTreeMap", "BTreeSet", "LinkedList", "Cow", "RefCell", "Arc", "Rc"];
        assert(strs_view(names@) =~= common_std_names());
        push_all(&mut r, names);
    }
    assert(strs_view(r@) =~= builtin_names(groups));
    r
}

} // verus!
