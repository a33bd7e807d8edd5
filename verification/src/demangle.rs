//! Symbol-name demangling, which the `symbolic-demangle` crate does.
//!
//! The crate is built with its `rust` feature alone, so the two Rust schemes
//! (legacy and v0) are the only ones it tries; its C++, MSVC and Swift
//! demanglers are not compiled in. Nothing here is proved.

use vstd::prelude::*;

verus! {

/// The text that `symbolic_demangle::demangle` returns for the symbol name
/// `name`.
pub uninterp spec fn demangled_name(name: Seq<char>) -> Seq<char>;

/// `name` begins as a Rust symbol may: with `ZN` or `R`, behind at most two
/// underscores.
pub open spec fn may_be_rust_symbol(name: Seq<char>) -> bool {
    ||| "ZN"@.is_prefix_of(name)
    ||| "_ZN"@.is_prefix_of(name)
    ||| "__ZN"@.is_prefix_of(name)
    ||| "R"@.is_prefix_of(name)
    ||| "_R"@.is_prefix_of(name)
    ||| "__R"@.is_prefix_of(name)
}

/// Calls `symbolic_demangle::demangle` on `name`.
///
/// That function reads nothing but `name`, so the contract claims that its
/// result is `demangled_name` of the characters of `name`. Of what that text
/// is it claims one thing: a name that does not begin as a Rust symbol may
/// comes back as it went in, since both Rust schemes turn it down at their
/// first test and the function then falls back to the name itself.
#[verifier::external_body]
pub(crate) fn demangle_symbol(name: &str) -> (readable: String)
    ensures
        readable@ == demangled_name(name@),
        !may_be_rust_symbol(name@) ==> readable@ == name@,
{
    symbolic_demangle::demangle(name).into_owned()
}

} // verus!
