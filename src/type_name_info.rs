use vstd::prelude::*;

use crate::shortened;
use crate::type_params_fmt_opts::TypeParamsFmtOpts;

verus! {

/// Holds both the short and full type names.
#[derive(Clone, Debug, PartialEq, Eq)]
pub struct TypeNameInfo {
    /// The short type name, e.g. `"Option<String>"`.
    pub short_name: String,
    /// The full type name, e.g.
    /// `"core::option::Option<alloc::string::String>"`.
    pub full_name: String,
}

impl TypeNameInfo {
    /// Returns `TypeNameInfo` for a fully qualified type name, such as
    /// `core::any::type_name` returns.
    pub fn new(qualified: &str) -> (r: Self)
        ensures
            r.full_name@ == qualified@,
            r.short_name@ == shortened(qualified@, 0, 0, TypeParamsFmtOpts::All),
    {
        let short_name = crate::simple_type_name(qualified);
        TypeNameInfo { short_name, full_name: qualified.to_owned() }
    }
}

} // verus!
