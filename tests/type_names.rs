use tynm::{simple_type_name, type_namem, type_namemn, type_namen, TypeName, TypeNameInfo, TypeParamsFmtOpts};

const OPTION_STRING: &str = "core::option::Option<alloc::string::String>";
const BOXED: &str = "alloc::boxed::Box<alloc::vec::Vec<(core::option::Option<alloc::string::String>, &core::sync::atomic::AtomicI8)>>";
const DEBUG: &str = "dyn core::fmt::Debug";

#[test]
fn type_name_primitives() {
    assert_eq!(simple_type_name("usize"), "usize");
    assert_eq!(simple_type_name("u8"), "u8");
    assert_eq!(simple_type_name("u16"), "u16");
    assert_eq!(simple_type_name("u32"), "u32");
    assert_eq!(simple_type_name("u64"), "u64");
    assert_eq!(simple_type_name("u128"), "u128");

    assert_eq!(simple_type_name("isize"), "isize");
    assert_eq!(simple_type_name("i8"), "i8");
    assert_eq!(simple_type_name("i16"), "i16");
    assert_eq!(simple_type_name("i32"), "i32");
    assert_eq!(simple_type_name("i64"), "i64");
    assert_eq!(simple_type_name("i128"), "i128");

    assert_eq!(simple_type_name("f32"), "f32");
    assert_eq!(simple_type_name("f64"), "f64");

    assert_eq!(simple_type_name("bool"), "bool");
    assert_eq!(simple_type_name("char"), "char");

    assert_eq!(simple_type_name("alloc::vec::Vec<(u32, alloc::string::String)>"), "Vec<(u32, String)>");
}

#[test]
fn type_name_array() {
    assert_eq!(simple_type_name("[u32; 3]"), "[u32; 3]");
    assert_eq!(simple_type_name("[core::option::Option<alloc::string::String>; 3]"), "[Option<String>; 3]");
}

#[test]
fn type_name_opts() {
    assert_eq!(
        tynm::type_name_opts("tynm::tests::type_name_opts::MyStruct<alloc::string::String>", TypeParamsFmtOpts::All),
        "MyStruct<String>"
    );
    assert_eq!(
        tynm::type_name_opts("tynm::tests::type_name_opts::MyStruct<alloc::string::String>", TypeParamsFmtOpts::Std),
        "MyStruct",
    );
    assert_eq!(
        tynm::type_name_opts("alloc::vec::Vec<tynm::tests::type_name_opts::MyStruct<alloc::string::String>>", TypeParamsFmtOpts::Std),
        "Vec<MyStruct>",
    );
}

#[test]
fn type_namem_opts() {
    let qualified = "tynm::tests::type_namem_opts::MyStruct<alloc::string::String>";

    assert_eq!(
        tynm::type_namem_opts(qualified, 1, TypeParamsFmtOpts::All),
        "tynm::..::MyStruct<alloc::..::String>",
    );
    assert_eq!(
        tynm::type_namem_opts(qualified, 1, TypeParamsFmtOpts::Std),
        "tynm::..::MyStruct",
    );
}

#[test]
fn type_namemn_opts() {
    let qualified = "tynm::tests::type_namemn_opts::MyStruct<alloc::string::String>";

    assert_eq!(
        tynm::type_namemn_opts(qualified, 1, 1, TypeParamsFmtOpts::Std),
        "tynm::..::type_namemn_opts::MyStruct",
    );
}

#[test]
fn type_name_slice() {
    assert_eq!(simple_type_name("&[u32]"), "&[u32]");
}

#[test]
fn type_name_unit_tuple() {
    assert_eq!(simple_type_name("()"), "()");
    assert_eq!(simple_type_name("(core::option::Option<alloc::string::String>,)"), "(Option<String>,)");
    assert_eq!(simple_type_name("(core::option::Option<alloc::string::String>, u32)"), "(Option<String>, u32)");
}

#[test]
fn type_name_reference() {
    assert_eq!(simple_type_name("&str"), "&str");

    assert_eq!(simple_type_name("&core::option::Option<alloc::string::String>"), "&Option<String>");
    assert_eq!(simple_type_name("core::option::Option<&alloc::string::String>"), "Option<&String>");
}

#[test]
fn type_name_display() {
    let tn: TypeName = TypeName::parse(BOXED).unwrap();

    let display = tn.as_display();
    let string = display.to_string();
    assert_eq!(simple_type_name(BOXED), string);
}

#[test]
fn type_name_display_mn() {
    let tn: TypeName = TypeName::parse(BOXED).unwrap();

    let display = tn.as_display_mn(1, 0);
    let string = display.to_string();
    assert_eq!(type_namemn(BOXED, 1, 0), string);
}

#[test]
fn type_name_usize_mn() {
    assert_eq!(type_namem("usize", usize::MAX), "usize");
    assert_eq!(type_namemn("usize", usize::MAX, usize::MAX), "usize");
}

#[test]
fn type_name_unsized() {
    assert_eq!(simple_type_name(DEBUG), "dyn Debug");
}

#[test]
fn type_name_unsized_mn() {
    assert_eq!(
        type_namem(DEBUG, 1),
        "dyn core::..::Debug"
    );
    assert_eq!(
        type_namen(DEBUG, 1),
        "dyn ..::fmt::Debug"
    );
    assert_eq!(
        type_namemn(DEBUG, 0, 1),
        "dyn ..::fmt::Debug"
    );
}

#[test]
fn clone() {
    let type_name_info = TypeNameInfo::new(OPTION_STRING);

    let clone = Clone::clone(&type_name_info);

    assert_eq!(type_name_info, clone);
}

#[test]
fn debug() {
    let type_name_info = TypeNameInfo::new(OPTION_STRING);

    assert_eq!(
        "TypeNameInfo { \
            short_name: \"Option<String>\", \
            full_name: \"core::option::Option<alloc::string::String>\" \
        }",
        format!("{type_name_info:?}")
    );
}
