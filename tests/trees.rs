use tynm::{
    simple_type_name, type_namem, type_namemn, type_namemn_opts, type_namen, ParseError,
    TypeName, TypeNameStruct, TypeParamsFmtOpts,
};

fn as_struct<'a, 's>(t: &'a TypeName<'s>) -> &'a TypeNameStruct<'s> {
    match t {
        TypeName::Struct(s) => s,
        other => panic!("expected a struct, found {other:?}"),
    }
}

fn check_simple(t: &TypeName) {
    let s = as_struct(t);
    assert_eq!(s.module_segments(), &["tynm", "types", "tests"]);
    assert_eq!(s.simple_name(), "Simple");
    assert!(s.type_params().is_empty());
}

fn check_single(t: &TypeName) {
    let s = as_struct(t);
    assert_eq!(s.module_segments(), &["tynm", "types", "tests"]);
    assert_eq!(s.simple_name(), "TypeParamSingle");
    assert_eq!(s.type_params().len(), 1);
    check_simple(&s.type_params()[0]);
}

#[test]
fn parse_simple_struct() {
    let actual = TypeName::parse("tynm::types::tests::Simple").unwrap();

    check_simple(&actual);
}

#[test]
fn parse_type_parameterized_struct() {
    let actual =
        TypeName::parse("tynm::types::tests::TypeParamSingle<tynm::types::tests::Simple>").unwrap();

    check_single(&actual);
}

#[test]
fn parse_nested_type_parameterized_struct() {
    let actual = TypeName::parse(
        "tynm::types::tests::TypeParamSingle<tynm::types::tests::TypeParamSingle<tynm::types::tests::Simple>>",
    )
    .unwrap();

    let s = as_struct(&actual);
    assert_eq!(s.module_segments(), &["tynm", "types", "tests"]);
    assert_eq!(s.simple_name(), "TypeParamSingle");
    assert_eq!(s.type_params().len(), 1);
    check_single(&s.type_params()[0]);
}

#[test]
fn parse_multi_type_parameterized_struct() {
    let actual = TypeName::parse(
        "tynm::types::tests::TypeParamDouble<tynm::types::tests::Simple, tynm::types::tests::Simple>",
    )
    .unwrap();

    let s = as_struct(&actual);
    assert_eq!(s.module_segments(), &["tynm", "types", "tests"]);
    assert_eq!(s.simple_name(), "TypeParamDouble");
    assert_eq!(s.type_params().len(), 2);
    check_simple(&s.type_params()[0]);
    check_simple(&s.type_params()[1]);
}

#[test]
fn parse_nested_multi_type_parameterized_struct() {
    let actual = TypeName::parse(
        "tynm::types::tests::TypeParamDouble<tynm::types::tests::TypeParamSingle<tynm::types::tests::Simple>, tynm::types::tests::TypeParamSingle<tynm::types::tests::Simple>>",
    )
    .unwrap();

    let s = as_struct(&actual);
    assert_eq!(s.module_segments(), &["tynm", "types", "tests"]);
    assert_eq!(s.simple_name(), "TypeParamDouble");
    assert_eq!(s.type_params().len(), 2);
    check_single(&s.type_params()[0]);
    check_single(&s.type_params()[1]);
}

#[test]
fn option_of_string_without_segments() {
    let q = "core::option::Option<alloc::string::String>";
    assert_eq!(type_namemn(q, 0, 0), "Option<String>");
}

#[test]
fn option_of_string_with_leading_segment() {
    let q = "core::option::Option<alloc::string::String>";
    assert_eq!(type_namem(q, 1), "core::..::Option<alloc::..::String>");
    assert_eq!(type_namen(q, 1), "..::option::Option<..::string::String>");
}

#[test]
fn trait_object_segments() {
    let q = "dyn core::fmt::Debug";
    assert_eq!(type_namemn(q, 0, 0), "dyn Debug");
    assert_eq!(type_namemn(q, 0, 1), "dyn ..::fmt::Debug");
}

#[test]
fn one_tuple_keeps_its_comma() {
    assert_eq!(simple_type_name("(alloc::string::String,)"), "(String,)");
}

#[test]
fn array_keeps_its_length() {
    assert_eq!(simple_type_name("[alloc::string::String; 3]"), "[String; 3]");
}

#[test]
fn primitive_at_largest_counts() {
    assert_eq!(type_namemn("usize", usize::MAX, usize::MAX), "usize");
    assert_eq!(type_namemn("usize", usize::MAX, 0), "usize");
    assert_eq!(type_namemn("usize", 0, usize::MAX), "usize");
}

#[test]
fn primitive_boundary() {
    let t = TypeName::parse("u32x4::Thing").unwrap();
    let s = as_struct(&t);
    assert_eq!(s.module_segments(), &["u32x4"]);
    assert_eq!(s.simple_name(), "Thing");

    let t = TypeName::parse("u32").unwrap();
    let s = as_struct(&t);
    assert!(s.module_segments().is_empty());
    assert_eq!(s.simple_name(), "u32");
}

#[test]
fn overlapping_counts_show_the_path_once() {
    assert_eq!(type_namemn("a::b::c::Thing", 2, 2), "a::b::c::Thing");
    assert_eq!(type_namemn("a::b::c::Thing", 2, 1), "a::b::c::Thing");
    assert_eq!(type_namemn("a::b::c::Thing", 1, 1), "a::..::c::Thing");
    assert_eq!(type_namemn("a::b::c::d::Thing", 2, 1), "a::b::..::d::Thing");
}

#[test]
fn zero_counts_give_the_skeleton() {
    let q = "alloc::vec::Vec<(core::option::Option<alloc::string::String>, &mut [u8; 4])>";
    assert_eq!(type_namemn(q, 0, 0), "Vec<(Option<String>, &mut [u8; 4])>");
}

#[test]
fn large_counts_give_the_input_back() {
    let q = "alloc::vec::Vec<(core::option::Option<alloc::string::String>, &mut [u8; 4])>";
    assert_eq!(type_namemn(q, 2, 2), q);
    assert_eq!(type_namemn(q, 3, 0), q);
    assert_eq!(type_namemn(q, usize::MAX, usize::MAX), q);
}

#[test]
fn larger_counts_keep_what_was_shown() {
    let q = "a::b::c::d::e::Thing";
    assert_eq!(type_namemn(q, 1, 0), "a::..::Thing");
    assert_eq!(type_namemn(q, 2, 0), "a::b::..::Thing");
    assert_eq!(type_namemn(q, 2, 1), "a::b::..::e::Thing");
    assert_eq!(type_namemn(q, 2, 2), "a::b::..::d::e::Thing");
    assert_eq!(type_namemn(q, 3, 2), "a::b::c::d::e::Thing");
}

#[test]
fn rendering_twice_gives_the_same_text() {
    let t = TypeName::parse("core::option::Option<alloc::string::String>").unwrap();
    assert_eq!(t.as_str_mn(1, 1), t.as_str_mn(1, 1));
    assert_eq!(t.as_str(), t.as_str());
}

#[test]
fn empty_input_is_the_empty_tree() {
    let t = TypeName::parse("").unwrap();
    assert_eq!(t, TypeName::Empty);
    assert_eq!(t.as_str(), "");
}

#[test]
fn malformed_input_is_refused() {
    assert_eq!(TypeName::parse("core::option::Option<"), Err(ParseError::Malformed));
    assert_eq!(TypeName::parse("Foo Bar"), Err(ParseError::Malformed));
    assert_eq!(TypeName::parse("u32::Thing"), Err(ParseError::Malformed));
    assert_eq!(TypeName::parse("(a::A)"), Err(ParseError::Malformed));
    assert_eq!(TypeName::parse("a::Ä"), Err(ParseError::Malformed));
    assert_eq!(TypeName::parse("fn(u8) -> u8"), Err(ParseError::Malformed));
}

#[test]
fn raw_pointers_are_unsupported() {
    assert_eq!(TypeName::parse("*const u8"), Err(ParseError::Unsupported));
    assert_eq!(
        TypeName::parse("alloc::vec::Vec<*mut u8>"),
        Err(ParseError::Unsupported)
    );
    assert_eq!(TypeName::parse("*const"), Err(ParseError::Malformed));
}

#[test]
fn unparsable_names_come_back_whole() {
    assert_eq!(type_namem("*const u8", 1), "*const u8");
    assert_eq!(simple_type_name("my::Thing<"), "my::Thing<");
}

#[test]
fn std_option_keeps_std_parameters_only() {
    let q = "alloc::boxed::Box<dyn my::MyTrait<my::SomeType>>";
    assert_eq!(type_namemn_opts(q, 0, 0, TypeParamsFmtOpts::Std), "Box<dyn MyTrait>");
    assert_eq!(type_namemn_opts(q, 0, 0, TypeParamsFmtOpts::All), "Box<dyn MyTrait<SomeType>>");
    let q = "core::pin::Pin<alloc::boxed::Box<my::SomeType>>";
    assert_eq!(type_namemn_opts(q, 0, 0, TypeParamsFmtOpts::Std), "Pin<Box<SomeType>>");
}

#[test]
fn accessors_show_the_parts() {
    let t = TypeName::parse("&mut [core::option::Option<u8>; 4]").unwrap();
    let r = match &t {
        TypeName::Reference(r) => r,
        other => panic!("expected a reference, found {other:?}"),
    };
    assert!(r.mutable());
    let a = match r.type_param().as_ref() {
        TypeName::Array(a) => a,
        other => panic!("expected an array, found {other:?}"),
    };
    assert_eq!(a.len(), "4");
    let o = as_struct(a.type_param());
    assert_eq!(o.simple_name(), "Option");
    assert_eq!(o.type_params().len(), 1);

    let t = TypeName::parse("(u8, ())").unwrap();
    match &t {
        TypeName::Tuple(tp) => {
            assert_eq!(tp.type_params().len(), 2);
            assert_eq!(tp.type_params()[1], TypeName::Unit);
        }
        other => panic!("expected a tuple, found {other:?}"),
    }

    let t = TypeName::parse("dyn core::fmt::Write").unwrap();
    match &t {
        TypeName::Trait(tr) => {
            assert_eq!(tr.module_segments(), &["core", "fmt"]);
            assert_eq!(tr.simple_name(), "Write");
            assert!(tr.type_params().is_empty());
        }
        other => panic!("expected a trait, found {other:?}"),
    }
}

#[test]
fn writers_append_to_the_buffer() {
    let t = TypeName::parse("a::b::c::Thing<x::Y>").unwrap();
    let mut buffer = String::from("> ");
    t.write_str(&mut buffer, 1, 1);
    assert_eq!(buffer, "> a::..::c::Thing<x::Y>");

    let s = as_struct(&t);
    let mut buffer = String::new();
    s.write_module_path(&mut buffer, 0, 2);
    assert_eq!(buffer, "..::b::c::");
    s.write_simple_name(&mut buffer);
    s.write_type_params(&mut buffer, 0, 0);
    assert_eq!(buffer, "..::b::c::Thing<Y>");
}

#[test]
fn never_and_slices_render() {
    assert_eq!(simple_type_name("!"), "!");
    assert_eq!(simple_type_name("&[alloc::string::String]"), "&[String]");
    assert_eq!(simple_type_name("&mut dyn core::any::Any"), "&mut dyn Any");
}

#[test]
fn tuple_with_trailing_comma_is_read() {
    let q = "(a::A, b::B,)";
    let t = TypeName::parse(q).unwrap();
    match &t {
        TypeName::Tuple(tp) => assert_eq!(tp.type_params().len(), 2),
        other => panic!("expected a tuple, found {other:?}"),
    }
    assert_eq!(simple_type_name(q), "(A, B)");
    assert_eq!(TypeName::parse("(a::A,, b::B)"), Err(ParseError::Malformed));
}

#[test]
fn reference_with_space_is_read() {
    let t = TypeName::parse("& a::B").unwrap();
    match &t {
        TypeName::Reference(r) => {
            assert!(!r.mutable());
            assert_eq!(as_struct(r.type_param()).simple_name(), "B");
        }
        other => panic!("expected a reference, found {other:?}"),
    }
    assert_eq!(simple_type_name("& a::B"), "&B");
    assert_eq!(simple_type_name("&mutex::X"), "&X");
    assert_eq!(TypeName::parse("&  a::B"), Err(ParseError::Malformed));
}
