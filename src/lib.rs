//! Returns type names with a specifiable number of module segments as a
//! `String`.
//!
//! A fully qualified type name such as
//! `core::option::Option<alloc::string::String>` is parsed into a
//! [`TypeName`] tree, which is rendered again keeping at most `m` leading and
//! `n` trailing module segments of every nominal type in it:
//! `type_namem("core::option::Option<alloc::string::String>", 1)` is
//! `"core::..::Option<alloc::..::String>"`.
//!
//! The modules: `model` holds the mathematical value of a tree and what its
//! rendering is; `grammar` which trees and texts qualified type names are;
//! `types` the trees themselves and their renderers; `parser` the parser;
//! `laws` what holds of rendering across calls.
use vstd::prelude::*;

pub mod grammar;
pub mod laws;
pub mod model;
pub mod parser;
pub mod type_name_info;
pub mod type_params_fmt_opts;
pub mod types;

pub use crate::grammar::{describes, has_pointer};
pub use crate::model::{render, TypeNameView};
pub use crate::parser::ParseError;
pub use crate::type_name_info::TypeNameInfo;
pub use crate::type_params_fmt_opts::TypeParamsFmtOpts;
pub use crate::types::{
    TypeName, TypeNameArray, TypeNameDisplay, TypeNamePointer, TypeNameReference, TypeNameSlice,
    TypeNameStruct, TypeNameTrait, TypeNameTuple,
};

verus! {

/// The shortened form of a qualified type name: the rendering of the tree it
/// describes, or the name itself where it describes none without a raw
/// pointer. At most one tree describes a text
/// (`parser::lemma_describes_unique`), so the tree chosen is that one.
pub open spec fn shortened(
    qualified: Seq<char>,
    m: nat,
    n: nat,
    opts: TypeParamsFmtOpts,
) -> Seq<char> {
    if exists|t: TypeNameView| describes(qualified, t) && !has_pointer(t) {
        render(
            choose|t: TypeNameView| describes(qualified, t) && !has_pointer(t),
            m,
            n,
            opts,
        )
    } else {
        qualified
    }
}

/// Returns the simple type name of a fully qualified type name, such as
/// `core::any::type_name` returns.
///
/// `simple_type_name("core::option::Option<alloc::string::String>")` is
/// `"Option<String>"`.
pub fn simple_type_name(qualified: &str) -> (r: String)
    ensures
        r@ == shortened(qualified@, 0, 0, TypeParamsFmtOpts::All),
{
    type_namemn_opts(qualified, 0, 0, TypeParamsFmtOpts::All)
}

/// Returns the simple type name, formatting type parameters as
/// `type_params_fmt_opts` says.
pub fn type_name_opts(qualified: &str, type_params_fmt_opts: TypeParamsFmtOpts) -> (r: String)
    ensures
        r@ == shortened(qualified@, 0, 0, type_params_fmt_opts),
{
    type_namemn_opts(qualified, 0, 0, type_params_fmt_opts)
}

/// Returns the type name with at most `m` most significant module path
/// segments.
///
/// `type_namem("core::option::Option<alloc::string::String>", 1)` is
/// `"core::..::Option<alloc::..::String>"`.
pub fn type_namem(qualified: &str, m: usize) -> (r: String)
    ensures
        r@ == shortened(qualified@, m as nat, 0, TypeParamsFmtOpts::All),
{
    type_namemn_opts(qualified, m, 0, TypeParamsFmtOpts::All)
}

/// Returns the type name with at most `m` most significant module path
/// segments, formatting type parameters as `type_params_fmt_opts` says.
pub fn type_namem_opts(qualified: &str, m: usize, type_params_fmt_opts: TypeParamsFmtOpts) -> (r:
    String)
    ensures
        r@ == shortened(qualified@, m as nat, 0, type_params_fmt_opts),
{
    type_namemn_opts(qualified, m, 0, type_params_fmt_opts)
}

/// Returns the type name with at most `n` least significant module path
/// segments.
///
/// `type_namen("core::option::Option<alloc::string::String>", 1)` is
/// `"..::option::Option<..::string::String>"`.
pub fn type_namen(qualified: &str, n: usize) -> (r: String)
    ensures
        r@ == shortened(qualified@, 0, n as nat, TypeParamsFmtOpts::All),
{
    type_namemn_opts(qualified, 0, n, TypeParamsFmtOpts::All)
}

/// Returns the type name with at most `n` least significant module path
/// segments, formatting type parameters as `type_params_fmt_opts` says.
pub fn type_namen_opts(qualified: &str, n: usize, type_params_fmt_opts: TypeParamsFmtOpts) -> (r:
    String)
    ensures
        r@ == shortened(qualified@, 0, n as nat, type_params_fmt_opts),
{
    type_namemn_opts(qualified, 0, n, type_params_fmt_opts)
}

/// Returns the type name with `m` most significant and `n` least significant
/// module path segments.
pub fn type_namemn(qualified: &str, m: usize, n: usize) -> (r: String)
    ensures
        r@ == shortened(qualified@, m as nat, n as nat, TypeParamsFmtOpts::All),
{
    type_namemn_opts(qualified, m, n, TypeParamsFmtOpts::All)
}

/// Returns the type name with `m` most significant and `n` least significant
/// module path segments, formatting type parameters as `type_params_fmt_opts`
/// says. A name that cannot be parsed is returned as it is.
pub fn type_namemn_opts(
    qualified: &str,
    m: usize,
    n: usize,
    type_params_fmt_opts: TypeParamsFmtOpts,
) -> (r: String)
    ensures
        r@ == shortened(qualified@, m as nat, n as nat, type_params_fmt_opts),
{
    match TypeName::parse(qualified) {
        Ok(t) => t.as_str_mn_opts(m, n, type_params_fmt_opts),
        Err(_) => qualified.to_owned(),
    }
}

} // verus!
