use vstd::prelude::*;

use crate::grammar::{
    describes, ends_type, fits, full_path, full_text, full_text_list, has_pointer, is_ident_char,
    is_length_text, is_lower, is_module_char, is_module_path, is_module_segment, is_pointer_kind,
    is_primitive, is_simple_name, is_upper, lemma_full_path_push, lemma_list_prefix,
    lemma_list_take_step, lemma_path_prefix, lemma_text_ascii, lemma_text_head, lemma_wf_list,
    list_fits, list_has_pointer, nominal_fits, wf, wf_list,
};
use crate::model::{angled, colons, comma_space, TypeNameView};
use crate::types::{
    lemma_type_names_view, segments_view, str_eq, type_names_view, TypeName, TypeNameArray,
    TypeNamePointer, TypeNameReference, TypeNameSlice, TypeNameStruct, TypeNameTrait,
    TypeNameTuple,
};

verus! {

/// The character at `i` of an ASCII string.
fn char_at(s: &str, i: usize) -> (c: char)
    requires
        s.is_ascii(),
        i < s@.len(),
    ensures
        c == s@[i as int],
        c <= '\u{7f}',
{
    let b = s.get_ascii(i);
    assert(s@[i as int] <= '\u{7f}');
    b as char
}

/// Whether `c` is a lowercase ASCII letter.
fn is_lower_char(c: char) -> (r: bool)
    ensures
        r == is_lower(c),
{
    'a' <= c && c <= 'z'
}

/// Whether `c` is an uppercase ASCII letter.
fn is_upper_char(c: char) -> (r: bool)
    ensures
        r == is_upper(c),
{
    'A' <= c && c <= 'Z'
}

/// Whether `c` may continue a module segment.
fn is_lowercase_alphanumeric_underscore(c: char) -> (r: bool)
    ensures
        r == is_module_char(c),
{
    is_lower_char(c) || ('0' <= c && c <= '9') || c == '_'
}

/// Whether `c` may stand in an identifier.
fn is_alphanumeric_underscore(c: char) -> (r: bool)
    ensures
        r == is_ident_char(c),
{
    is_lowercase_alphanumeric_underscore(c) || is_upper_char(c)
}

/// Whether `lit` stands in `s` at `pos`.
fn starts_with_at(s: &str, len: usize, pos: usize, lit: &str) -> (r: bool)
    requires
        s.is_ascii(),
        len == s@.len(),
        pos <= len,
    ensures
        r == (pos + lit@.len() <= len && s@.subrange(pos as int, pos + lit@.len()) == lit@),
{
    let k = lit.unicode_len();
    if k > len - pos {
        return false;
    }
    let mut i: usize = 0;
    while i < k
        invariant
            k == lit@.len(),
            pos + k <= len == s@.len(),
            s.is_ascii(),
            i <= k,
            s@.subrange(pos as int, pos + i) == lit@.take(i as int),
        decreases k - i,
    {
        if char_at(s, pos + i) != lit.get_char(i) {
            assert(s@.subrange(pos as int, pos + k)[i as int] != lit@[i as int]);
            return false;
        }
        assert(s@.subrange(pos as int, pos + i + 1) =~= s@.subrange(pos as int, pos + i).push(
            s@[pos + i],
        ));
        assert(lit@.take(i + 1) =~= lit@.take(i as int).push(lit@[i as int]));
        i = i + 1;
    }
    assert(lit@.take(k as int) =~= lit@);
    true
}

/// The end of the run of module characters that starts at `pos`.
fn scan_module_chars(s: &str, len: usize, pos: usize) -> (e: usize)
    requires
        s.is_ascii(),
        len == s@.len(),
        pos <= len,
    ensures
        pos <= e <= len,
        forall|i: int| pos <= i < e ==> is_module_char(#[trigger] s@[i]),
        e == len || !is_module_char(s@[e as int]),
{
    let mut e = pos;
    while e < len && is_lowercase_alphanumeric_underscore(char_at(s, e))
        invariant
            pos <= e <= len == s@.len(),
            s.is_ascii(),
            forall|i: int| pos <= i < e ==> is_module_char(#[trigger] s@[i]),
        decreases len - e,
    {
        e = e + 1;
    }
    e
}

/// The end of the run of identifier characters that starts at `pos`.
fn scan_ident_chars(s: &str, len: usize, pos: usize) -> (e: usize)
    requires
        s.is_ascii(),
        len == s@.len(),
        pos <= len,
    ensures
        pos <= e <= len,
        forall|i: int| pos <= i < e ==> is_ident_char(#[trigger] s@[i]),
        e == len || !is_ident_char(s@[e as int]),
{
    let mut e = pos;
    while e < len && is_alphanumeric_underscore(char_at(s, e))
        invariant
            pos <= e <= len == s@.len(),
            s.is_ascii(),
            forall|i: int| pos <= i < e ==> is_ident_char(#[trigger] s@[i]),
        decreases len - e,
    {
        e = e + 1;
    }
    e
}

/// The position of the first `']'` at or after `pos`.
fn find_close_bracket(s: &str, len: usize, pos: usize) -> (r: Option<usize>)
    requires
        s.is_ascii(),
        len == s@.len(),
        pos <= len,
    ensures
        r matches Some(j) ==> pos <= j < len && s@[j as int] == ']' && forall|i: int|
            pos <= i < j ==> #[trigger] s@[i] != ']',
        r is None ==> forall|i: int| pos <= i < len ==> #[trigger] s@[i] != ']',
{
    let mut j = pos;
    while j < len
        invariant
            pos <= j <= len == s@.len(),
            s.is_ascii(),
            forall|i: int| pos <= i < j ==> #[trigger] s@[i] != ']',
        decreases len - j,
    {
        if char_at(s, j) == ']' {
            return Some(j);
        }
        j = j + 1;
    }
    None
}

/// Whether `w` names a primitive type.
fn is_primitive_str(w: &str) -> (r: bool)
    ensures
        r == is_primitive(w@),
{
    proof {
        reveal_strlit("bool");
        reveal_strlit("char");
        reveal_strlit("f32");
        reveal_strlit("f64");
        reveal_strlit("i128");
        reveal_strlit("i16");
        reveal_strlit("i32");
        reveal_strlit("i64");
        reveal_strlit("i8");
        reveal_strlit("isize");
        reveal_strlit("str");
        reveal_strlit("u128");
        reveal_strlit("u16");
        reveal_strlit("u32");
        reveal_strlit("u64");
        reveal_strlit("u8");
        reveal_strlit("usize");
        assert("bool"@ =~= seq!['b', 'o', 'o', 'l']);
        assert("char"@ =~= seq!['c', 'h', 'a', 'r']);
        assert("f32"@ =~= seq!['f', '3', '2']);
        assert("f64"@ =~= seq!['f', '6', '4']);
        assert("i128"@ =~= seq!['i', '1', '2', '8']);
        assert("i16"@ =~= seq!['i', '1', '6']);
        assert("i32"@ =~= seq!['i', '3', '2']);
        assert("i64"@ =~= seq!['i', '6', '4']);
        assert("i8"@ =~= seq!['i', '8']);
        assert("isize"@ =~= seq!['i', 's', 'i', 'z', 'e']);
        assert("str"@ =~= seq!['s', 't', 'r']);
        assert("u128"@ =~= seq!['u', '1', '2', '8']);
        assert("u16"@ =~= seq!['u', '1', '6']);
        assert("u32"@ =~= seq!['u', '3', '2']);
        assert("u64"@ =~= seq!['u', '6', '4']);
        assert("u8"@ =~= seq!['u', '8']);
        assert("usize"@ =~= seq!['u', 's', 'i', 'z', 'e']);
    }
    str_eq(w, "bool") || str_eq(w, "char") || str_eq(w, "f32") || str_eq(w, "f64") || str_eq(
        w,
        "i128",
    ) || str_eq(w, "i16") || str_eq(w, "i32") || str_eq(w, "i64") || str_eq(w, "i8") || str_eq(
        w,
        "isize",
    ) || str_eq(w, "str") || str_eq(w, "u128") || str_eq(w, "u16") || str_eq(w, "u32") || str_eq(
        w,
        "u64",
    ) || str_eq(w, "u8") || str_eq(w, "usize")
}

/// Why a text is not turned into a tree.
#[derive(Clone, Copy, Debug, PartialEq, Eq, Structural)]
pub enum ParseError {
    /// The text is not a qualified type name.
    Malformed,
    /// The text names a raw pointer type, which is not supported.
    Unsupported,
}

/// Whether `text` is the fully qualified text of the nominal type `v`, whose
/// path and name have their shapes.
spec fn nominal_text(text: Seq<char>, v: TypeNameView) -> bool {
    match v {
        TypeNameView::Struct { module_segments: path, simple_name: name, type_params: params } => {
            &&& is_module_path(path)
            &&& is_simple_name(name)
            &&& wf_list(params)
            &&& text == full_path(path) + name + angled(params.len(), full_text_list(params))
        },
        _ => false,
    }
}

/// The text of a nominal type with this path, name and parameters.
spec fn nominal_full_text(path: Seq<Seq<char>>, name: Seq<char>, params: Seq<TypeNameView>) -> Seq<
    char,
> {
    full_path(path) + name + angled(params.len(), full_text_list(params))
}

/// `r` holds a nominal type whose view is `v`, read up to `end`.
spec fn nominal_result(r: Option<(TypeNameStruct, usize)>, v: TypeNameView, end: int) -> bool {
    match r {
        Some((n, e)) => n@ == v && e == end,
        None => false,
    }
}

/// `r` holds a type whose view is `v`, read up to `end`.
spec fn type_result(r: Option<(TypeName, usize)>, v: TypeNameView, end: int) -> bool {
    match r {
        Some((t, e)) => t@ == v && e == end,
        None => false,
    }
}

/// `r` holds a list of types whose views are `vs`, read up to `end`.
spec fn list_result(r: Option<(Vec<TypeName>, usize)>, vs: Seq<TypeNameView>, end: int) -> bool {
    match r {
        Some((ts, e)) => type_names_view(ts@) == vs && e == end,
        None => false,
    }
}

/// Where a nominal type fits at `pos` and its first `k` segments stand before
/// `p`, a lowercase letter at `p` starts segment `k`, which a `"::"` follows.
proof fn lemma_nominal_segment(
    s: Seq<char>,
    pos: int,
    path: Seq<Seq<char>>,
    name: Seq<char>,
    params: Seq<TypeNameView>,
    k: int,
    p: int,
)
    requires
        nominal_fits(s, pos, path, name, params),
        0 <= k <= path.len(),
        p == pos + full_path(path.take(k)).len(),
        p < s.len(),
        is_lower(s[p]),
    ensures
        k < path.len(),
        p + path[k].len() + 2 <= s.len(),
        s.subrange(p, p + path[k].len()) == path[k],
        s[p + path[k].len()] == ':',
        s[p + path[k].len() + 1] == ':',
        full_path(path.take(k + 1)).len() == full_path(path.take(k)).len() + path[k].len() + 2,
{
    let text = nominal_full_text(path, name, params);
    lemma_path_prefix(path, k);
    let l = full_path(path.take(k)).len() as int;
    if k == path.len() {
        assert(path.take(k) =~= path);
        assert(s[p] == text[l]);
        assert(text[l] == name[0]);
    } else {
        let w = path[k];
        assert(text.subrange(l, l + w.len() + 2) == full_path(path).subrange(l, l + w.len() + 2));
        assert(s.subrange(p, p + w.len()) =~= (w + colons()).subrange(0, w.len() as int));
        assert(s[p + w.len()] == (w + colons())[w.len() as int]);
        assert(s[p + w.len() + 1] == (w + colons())[w.len() as int + 1]);
        assert(path.take(k + 1) =~= path.take(k).push(w));
        lemma_full_path_push(path.take(k), w);
    }
}

/// Where a nominal type fits at `pos` and its first `k` segments stand before
/// `p`, no lowercase letter at `p` means that all segments stand before `p`.
proof fn lemma_nominal_path_end(
    s: Seq<char>,
    pos: int,
    path: Seq<Seq<char>>,
    name: Seq<char>,
    params: Seq<TypeNameView>,
    k: int,
    p: int,
)
    requires
        nominal_fits(s, pos, path, name, params),
        0 <= k <= path.len(),
        p == pos + full_path(path.take(k)).len(),
        !(p < s.len() && is_lower(s[p])),
    ensures
        k == path.len(),
{
    if k < path.len() {
        lemma_path_prefix(path, k);
        let l = full_path(path.take(k)).len() as int;
        let w = path[k];
        assert(nominal_full_text(path, name, params).subrange(l, l + w.len() + 2) == full_path(
            path,
        ).subrange(l, l + w.len() + 2));
        assert(s[p] == (w + colons())[0]);
        assert(is_module_segment(w));
    }
}

/// Where a nominal type fits at `pos` and its path stands before `p`, the run
/// of identifier characters at `p` is its name, which `'<'` follows exactly
/// when it has parameters.
proof fn lemma_nominal_name(
    s: Seq<char>,
    pos: int,
    path: Seq<Seq<char>>,
    name: Seq<char>,
    params: Seq<TypeNameView>,
    p: int,
    e: int,
)
    requires
        nominal_fits(s, pos, path, name, params),
        p == pos + full_path(path).len(),
        p <= e <= s.len(),
        forall|i: int| p <= i < e ==> is_ident_char(#[trigger] s[i]),
        e == s.len() || !is_ident_char(s[e]),
    ensures
        e == p + name.len(),
        s.subrange(p, e) == name,
        params.len() > 0 <==> (e < s.len() && s[e] == '<'),
        params.len() > 0 ==> list_fits(s, e + 1, params) && s[e + 1 + full_text_list(params).len()]
            == '>',
{
    let text = nominal_full_text(path, name, params);
    let l = full_path(path).len() as int;
    let after = p + name.len();
    assert(s.subrange(pos, pos + text.len()) == text);
    assert forall|i: int| p <= i < after implies #[trigger] s[i] == name[i - p] by {
        assert(s[i] == s.subrange(pos, pos + text.len())[i - pos]);
        assert(text[l + (i - p)] == name[i - p]);
    }
    if params.len() > 0 {
        let inner = full_text_list(params);
        assert(text == full_path(path) + name + (seq!['<'] + inner + seq!['>']));
        assert(s[after] == s.subrange(pos, pos + text.len())[after - pos]);
        assert(s[after] == '<');
        assert(s.subrange(after + 1, after + 1 + inner.len()) =~= text.subrange(
            l + name.len() + 1,
            l + name.len() + 1 + inner.len(),
        ));
        assert(s[after + 1 + inner.len()] == s.subrange(pos, pos + text.len())[after + 1
            + inner.len() - pos]);
        assert(s[after + 1 + inner.len()] == '>');
        assert(text.subrange(l + name.len() + 1, l + name.len() + 1 + inner.len()) =~= inner);
        assert(list_fits(s, after + 1, params));
    } else {
        assert(text =~= full_path(path) + name);
        assert(ends_type(s, after));
    }
    assert(is_simple_name(name));
    if e < after {
        assert(is_ident_char(name[e - p]));
    }
    if e > after {
        assert(is_ident_char(s[after]));
    }
    assert(s.subrange(p, e) =~= name);
}

/// Reads a nominal type at `pos`: a module path, a simple name and optional
/// type parameters.
fn struct_type<'a>(s: &'a str, len: usize, pos: usize) -> (r: Option<(TypeNameStruct<'a>, usize)>)
    requires
        s.is_ascii(),
        len == s@.len(),
        pos <= len,
    ensures
        r matches Some((n, end)) ==> pos < end <= len && nominal_text(
            s@.subrange(pos as int, end as int),
            n@,
        ),
        forall|path: Seq<Seq<char>>, name: Seq<char>, params: Seq<TypeNameView>|
            #[trigger] nominal_fits(s@, pos as int, path, name, params) ==> nominal_result(
                r,
                TypeNameView::Struct { module_segments: path, simple_name: name, type_params: params },
                pos + nominal_full_text(path, name, params).len(),
            ),
    decreases len - pos, 0nat,
{
    proof {
        reveal_strlit("::");
        assert("::"@ =~= colons());
    }
    let mut segs: Vec<&'a str> = Vec::new();
    let mut p = pos;
    while p < len && is_lower_char(char_at(s, p))
        invariant
            pos <= p <= len == s@.len(),
            s.is_ascii(),
            "::"@ == colons(),
            is_module_path(segments_view(segs@)),
            s@.subrange(pos as int, p as int) == full_path(segments_view(segs@)),
            forall|path: Seq<Seq<char>>, name: Seq<char>, params: Seq<TypeNameView>|
                #[trigger] nominal_fits(s@, pos as int, path, name, params) ==> segs.len()
                    <= path.len() && segments_view(segs@) == path.take(segs.len() as int) && p
                    == pos + full_path(path.take(segs.len() as int)).len(),
        decreases len - p,
    {
        let e = scan_module_chars(s, len, p);
        let ghost k = segs.len() as int;
        proof {
            assert forall|path: Seq<Seq<char>>, name: Seq<char>, params: Seq<TypeNameView>|
                #[trigger] nominal_fits(s@, pos as int, path, name, params) implies {
                &&& k < path.len()
                &&& e == p + path[k].len()
                &&& e + 2 <= len
                &&& s@.subrange(e as int, e + 2) == colons()
                &&& s@.subrange(p as int, e as int) == path[k]
                &&& full_path(path.take(k + 1)).len() == full_path(path.take(k)).len()
                    + path[k].len() + 2
            } by {
                lemma_nominal_segment(s@, pos as int, path, name, params, k, p as int);
                let w = path[k];
                assert(is_module_segment(w));
                if e < p + w.len() {
                    assert(s@[e as int] == s@.subrange(p as int, p + w.len())[e - p]);
                }
                if e > p + w.len() {
                    assert(is_module_char(s@[p + w.len()]));
                }
                assert(s@.subrange(e as int, e + 2) =~= colons());
            }
        }
        if !starts_with_at(s, len, e, "::") {
            return None;
        }
        let seg = s.substring_ascii(p, e);
        proof {
            let old_path = segments_view(segs@);
            lemma_full_path_push(old_path, seg@);
            assert(segments_view(segs@.push(seg)) =~= old_path.push(seg@));
            assert(is_module_segment(seg@)) by {
                assert(seg@[0] == s@[p as int]);
                assert forall|i: int| 0 <= i < seg@.len() implies is_module_char(
                    #[trigger] seg@[i],
                ) by {
                    assert(seg@[i] == s@[p + i]);
                }
            }
            assert(s@.subrange(pos as int, e + 2) =~= s@.subrange(pos as int, p as int) + seg@
                + s@.subrange(e as int, e + 2));
            assert forall|path: Seq<Seq<char>>, name: Seq<char>, params: Seq<TypeNameView>|
                #[trigger] nominal_fits(s@, pos as int, path, name, params) implies {
                &&& segs.len() + 1 <= path.len()
                &&& segments_view(segs@.push(seg)) == path.take(k + 1)
            } by {
                assert(path.take(k + 1) =~= path.take(k).push(path[k]));
            }
        }
        segs.push(seg);
        p = e + 2;
    }
    let ghost k = segs.len() as int;
    proof {
        assert forall|path: Seq<Seq<char>>, name: Seq<char>, params: Seq<TypeNameView>|
            #[trigger] nominal_fits(s@, pos as int, path, name, params) implies k == path.len()
            && segments_view(segs@) == path by {
            lemma_nominal_path_end(s@, pos as int, path, name, params, k, p as int);
            assert(path.take(k) =~= path);
        }
    }
    let ghost path = segments_view(segs@);
    proof {
        assert forall|path2: Seq<Seq<char>>, name: Seq<char>, params: Seq<TypeNameView>|
            #[trigger] nominal_fits(s@, pos as int, path2, name, params) implies p < len
            && is_upper(s@[p as int]) by {
            let text = nominal_full_text(path2, name, params);
            let l = full_path(path2).len() as int;
            assert(path2.take(k) =~= path2);
            assert(s@[p as int] == text[l]);
        }
    }
    if p >= len || !is_upper_char(char_at(s, p)) {
        return None;
    }
    let e = scan_ident_chars(s, len, p);
    let name = s.substring_ascii(p, e);
    proof {
        assert(is_simple_name(name@)) by {
            assert(name@[0] == s@[p as int]);
            assert forall|i: int| 0 <= i < name@.len() implies is_ident_char(#[trigger] name@[i]) by {
                assert(name@[i] == s@[p as int + i]);
            }
        }
        lemma_type_names_view(Seq::<TypeName>::empty());
        assert forall|path2: Seq<Seq<char>>, name2: Seq<char>, params: Seq<TypeNameView>|
            #[trigger] nominal_fits(s@, pos as int, path2, name2, params) implies {
            &&& e == p + name2.len()
            &&& name@ == name2
            &&& (params.len() > 0 <==> (e < len && s@[e as int] == '<'))
            &&& params.len() > 0 ==> list_fits(s@, e + 1, params) && s@[e + 1
                + full_text_list(params).len()] == '>'
        } by {
            assert(path2.take(k) =~= path2);
            lemma_nominal_name(s@, pos as int, path2, name2, params, p as int, e as int);
            assert(name@ =~= s@.subrange(p as int, e as int));
        }
    }
    if e < len && char_at(s, e) == '<' {
        match parse_list(s, len, e + 1) {
            None => None,
            Some((params, q)) => {
                if q < len && char_at(s, q) == '>' {
                    let n = TypeNameStruct {
                        module_segments: segs,
                        simple_name: name,
                        type_params: params,
                    };
                    proof {
                        let ps = type_names_view(params@);
                        assert(s@.subrange(pos as int, q + 1) =~= full_path(path) + name@ + (seq!['<']
                            + full_text_list(ps) + seq!['>']));
                        assert forall|path2: Seq<Seq<char>>, name2: Seq<char>, params2: Seq<TypeNameView>|
                            #[trigger] nominal_fits(s@, pos as int, path2, name2, params2) implies nominal_result(
                            Some((n, (q + 1) as usize)),
                            TypeNameView::Struct {
                                module_segments: path2,
                                simple_name: name2,
                                type_params: params2,
                            },
                            pos + nominal_full_text(path2, name2, params2).len(),
                        ) by {
                            assert(ps == params2);
                            assert(path == path2);
                        }
                    }
                    Some((n, q + 1))
                } else {
                    None
                }
            },
        }
    } else {
        let n = TypeNameStruct { module_segments: segs, simple_name: name, type_params: Vec::new() };
        proof {
            assert(type_names_view(n.type_params@) =~= Seq::<TypeNameView>::empty());
            assert(s@.subrange(pos as int, e as int) =~= full_path(path) + name@);
            assert forall|path2: Seq<Seq<char>>, name2: Seq<char>, params2: Seq<TypeNameView>|
                #[trigger] nominal_fits(s@, pos as int, path2, name2, params2) implies nominal_result(
                Some((n, e)),
                TypeNameView::Struct {
                    module_segments: path2,
                    simple_name: name2,
                    type_params: params2,
                },
                pos + nominal_full_text(path2, name2, params2).len(),
            ) by {
                assert(params2 =~= Seq::<TypeNameView>::empty());
                assert(path == path2);
            }
        }
        Some((n, e))
    }
}

/// Where a list fits at `pos`, its element `k` fits where it stands: at `pos`
/// for the first, and after the text of the elements before it and a `", "`
/// for the others.
proof fn lemma_list_elem(s: Seq<char>, pos: int, ts: Seq<TypeNameView>, k: int)
    requires
        list_fits(s, pos, ts),
        0 <= k < ts.len(),
    ensures
        wf(ts[k]),
        k == 0 ==> fits(s, pos, ts[0]) && pos + full_text(ts[0]).len() == pos
            + full_text_list(ts.take(1)).len(),
        k > 0 ==> {
            let p = pos + full_text_list(ts.take(k)).len();
            &&& p + 2 <= s.len()
            &&& s.subrange(p, p + 2) == comma_space()
            &&& fits(s, p + 2, ts[k])
            &&& p + 2 + full_text(ts[k]).len() == pos + full_text_list(ts.take(k + 1)).len()
        },
{
    lemma_wf_list(ts);
    lemma_list_take_step(ts, k);
    lemma_list_prefix(ts, k + 1);
    let whole = full_text_list(ts);
    let upto = full_text_list(ts.take(k + 1));
    let q = pos + upto.len();
    assert(s.subrange(pos, pos + whole.len()) == whole);
    assert forall|i: int| pos <= i < q implies s[i] == upto[i - pos] by {
        assert(s[i] == s.subrange(pos, pos + whole.len())[i - pos]);
        assert(whole.take(upto.len() as int)[i - pos] == upto[i - pos]);
    }
    if k + 1 < ts.len() {
        assert(s[q] == s.subrange(pos, pos + whole.len())[q - pos]);
        assert(s[q] == ',');
    } else {
        assert(ts.take(k + 1) =~= ts);
    }
    assert(ends_type(s, q));
    if k == 0 {
        assert(s.subrange(pos, q) =~= upto);
    } else {
        lemma_list_prefix(ts, k);
        let p = pos + full_text_list(ts.take(k)).len();
        assert(upto == full_text_list(ts.take(k)) + comma_space() + full_text(ts[k]));
        assert(s.subrange(p, p + 2) =~= comma_space()) by {
            assert(s[p] == upto[p - pos]);
            assert(s[p + 1] == upto[p + 1 - pos]);
        }
        assert(s.subrange(p + 2, q) =~= full_text(ts[k])) by {
            assert forall|i: int| 0 <= i < full_text(ts[k]).len() implies s.subrange(p + 2, q)[i]
                == full_text(ts[k])[i] by {
                assert(s[p + 2 + i] == upto[p + 2 + i - pos]);
            }
        }
    }
}

/// Where a list fits at `pos` and its first `k` elements stand before `p`,
/// a `", "` stands at `p` exactly when more elements follow.
proof fn lemma_list_more(s: Seq<char>, pos: int, ts: Seq<TypeNameView>, k: int, p: int)
    requires
        list_fits(s, pos, ts),
        1 <= k <= ts.len(),
        p == pos + full_text_list(ts.take(k)).len(),
    ensures
        k < ts.len() <==> (p + 2 <= s.len() && s.subrange(p, p + 2) == comma_space()),
{
    if k < ts.len() {
        lemma_list_elem(s, pos, ts, k);
    } else {
        assert(ts.take(k) =~= ts);
        if p + 2 <= s.len() && s.subrange(p, p + 2) == comma_space() {
            assert(s[p] == s.subrange(p, p + 2)[0]);
            assert(s[p + 1] == s.subrange(p, p + 2)[1]);
        }
    }
}

/// Reads one or more types at `pos`, separated by `", "`.
fn parse_list<'a>(s: &'a str, len: usize, pos: usize) -> (r: Option<(Vec<TypeName<'a>>, usize)>)
    requires
        s.is_ascii(),
        len == s@.len(),
        pos <= len,
    ensures
        r matches Some((v, end)) ==> pos < end <= len && v.len() > 0 && wf_list(
            type_names_view(v@),
        ) && s@.subrange(pos as int, end as int) == full_text_list(type_names_view(v@)),
        forall|ts: Seq<TypeNameView>| #[trigger]
            list_fits(s@, pos as int, ts) ==> list_result(
                r,
                ts,
                pos + full_text_list(ts).len(),
            ),
    decreases len - pos, 3nat,
{
    proof {
        reveal_strlit(", ");
        assert(", "@ =~= comma_space());
    }
    let first = parse_type(s, len, pos);
    proof {
        assert forall|ts: Seq<TypeNameView>| #[trigger]
            list_fits(s@, pos as int, ts) implies type_result(
                first,
                ts[0],
                pos + full_text_list(ts.take(1)).len(),
            ) by {
            lemma_list_elem(s@, pos as int, ts, 0);
        }
    }
    let (t, e) = match first {
        None => {
            return None;
        },
        Some(x) => x,
    };
    let mut v: Vec<TypeName<'a>> = Vec::new();
    v.push(t);
    proof {
        lemma_type_names_view(v@);
        assert(wf_list(Seq::<TypeNameView>::empty()));
        assert(type_names_view(v@) =~= seq![t@]);
        assert(seq![t@].drop_last() =~= Seq::<TypeNameView>::empty());
        assert forall|ts: Seq<TypeNameView>| #[trigger]
            list_fits(s@, pos as int, ts) implies type_names_view(v@) == ts.take(1) by {
            assert(ts.take(1) =~= seq![ts[0]]);
        }
    }
    let mut p = e;
    while starts_with_at(s, len, p, ", ")
        invariant
            pos < p <= len == s@.len(),
            s.is_ascii(),
            ", "@ == comma_space(),
            v.len() > 0,
            wf_list(type_names_view(v@)),
            s@.subrange(pos as int, p as int) == full_text_list(type_names_view(v@)),
            forall|ts: Seq<TypeNameView>| #[trigger]
                list_fits(s@, pos as int, ts) ==> v.len() <= ts.len() && type_names_view(v@)
                    == ts.take(v.len() as int) && p == pos + full_text_list(
                    ts.take(v.len() as int),
                ).len(),
        decreases len - p,
    {
        let next = parse_type(s, len, p + 2);
        let ghost k = v.len() as int;
        proof {
            assert forall|ts: Seq<TypeNameView>| #[trigger]
                list_fits(s@, pos as int, ts) implies k < ts.len() && type_result(
                    next,
                    ts[k],
                    pos + full_text_list(ts.take(k + 1)).len(),
                ) by {
                lemma_list_more(s@, pos as int, ts, k, p as int);
                lemma_list_elem(s@, pos as int, ts, k);
            }
        }
        match next {
            None => {
                return None;
            },
            Some((t, e)) => {
                proof {
                    let old_views = type_names_view(v@);
                    assert(v@.push(t).drop_last() =~= v@);
                    assert(type_names_view(v@.push(t)) == old_views.push(t@));
                    assert(old_views.push(t@).drop_last() =~= old_views);
                    assert(s@.subrange(pos as int, e as int) =~= s@.subrange(pos as int, p as int)
                        + s@.subrange(p as int, p + 2) + s@.subrange(p + 2, e as int));
                    assert forall|ts: Seq<TypeNameView>| #[trigger]
                        list_fits(s@, pos as int, ts) implies old_views.push(t@) == ts.take(k + 1) by {
                        assert(ts.take(k + 1) =~= ts.take(k).push(ts[k]));
                    }
                }
                v.push(t);
                p = e;
            },
        }
    }
    proof {
        assert forall|ts: Seq<TypeNameView>| #[trigger]
            list_fits(s@, pos as int, ts) implies list_result(
                Some((v, p)),
                ts,
                pos + full_text_list(ts).len(),
            ) by {
            lemma_list_more(s@, pos as int, ts, v.len() as int, p as int);
            assert(ts.take(ts.len() as int) =~= ts);
        }
    }
    Some((v, p))
}

/// Characters of `s` from `pos` on are those of `whole` where `whole` stands
/// there.
proof fn lemma_char_at(s: Seq<char>, pos: int, whole: Seq<char>, off: int)
    requires
        0 <= pos,
        pos + whole.len() <= s.len(),
        s.subrange(pos, pos + whole.len()) == whole,
        0 <= off < whole.len(),
    ensures
        s[pos + off] == whole[off],
{
    assert(s[pos + off] == s.subrange(pos, pos + whole.len())[off]);
}

/// A piece of `whole` stands in `s` where `whole` stands there.
proof fn lemma_piece_at(s: Seq<char>, pos: int, whole: Seq<char>, off: int, piece: Seq<char>)
    requires
        0 <= pos,
        pos + whole.len() <= s.len(),
        s.subrange(pos, pos + whole.len()) == whole,
        0 <= off,
        off + piece.len() <= whole.len(),
        whole.subrange(off, off + piece.len()) == piece,
    ensures
        s.subrange(pos + off, pos + off + piece.len()) == piece,
{
    assert forall|i: int| 0 <= i < piece.len() implies s.subrange(
        pos + off,
        pos + off + piece.len(),
    )[i] == piece[i] by {
        lemma_char_at(s, pos, whole, off + i);
        assert(whole.subrange(off, off + piece.len())[i] == whole[off + i]);
    }
    assert(s.subrange(pos + off, pos + off + piece.len()) =~= piece);
}

/// The names of the primitive types are lowercase-led identifiers.
proof fn lemma_primitive_chars(w: Seq<char>)
    requires
        is_primitive(w),
    ensures
        w.len() > 0,
        is_lower(w[0]),
        forall|i: int| 0 <= i < w.len() ==> is_ident_char(#[trigger] w[i]),
{
}

/// The text of a nominal type starts with a run of identifier characters, its
/// first segment or else its name, which neither an identifier character nor
/// a space follows.
proof fn lemma_struct_word(s: Seq<char>, pos: int, t: TypeNameView) -> (l: int)
    requires
        wf(t),
        t is Struct,
        fits(s, pos, t),
    ensures
        1 <= l,
        pos + l <= s.len(),
        forall|i: int| pos <= i < pos + l ==> is_ident_char(#[trigger] s[i]),
        pos + l == s.len() || (!is_ident_char(s[pos + l]) && s[pos + l] != ' '),
        s.subrange(pos, pos + l) == if t->Struct_module_segments.len() > 0 {
            t->Struct_module_segments[0]
        } else {
            t->Struct_simple_name
        },
{
    let path = t->Struct_module_segments;
    let name = t->Struct_simple_name;
    let params = t->Struct_type_params;
    let text = full_text(t);
    if path.len() > 0 {
        lemma_path_prefix(path, 0);
        assert(path.take(0) =~= Seq::<Seq<char>>::empty());
        let w = path[0];
        assert(is_module_segment(w));
        assert(text.subrange(0, w.len() as int + 2) =~= full_path(path).subrange(0, w.len() as int + 2));
        assert(text.subrange(0, w.len() as int) =~= w);
        lemma_piece_at(s, pos, text, 0, w);
        lemma_char_at(s, pos, text, w.len() as int);
        assert(text[w.len() as int] == (w + colons())[w.len() as int]);
        assert forall|i: int| pos <= i < pos + w.len() implies is_ident_char(#[trigger] s[i]) by {
            assert(s[i] == s.subrange(pos, pos + w.len())[i - pos]);
        }
        w.len() as int
    } else {
        if is_primitive(name) {
            lemma_primitive_chars(name);
        }
        assert(is_primitive(name) || is_simple_name(name));
        assert(text.subrange(0, name.len() as int) =~= name);
        lemma_piece_at(s, pos, text, 0, name);
        if params.len() > 0 {
            lemma_char_at(s, pos, text, name.len() as int);
        } else {
            assert(text =~= name);
        }
        assert forall|i: int| pos <= i < pos + name.len() implies is_ident_char(#[trigger] s[i]) by {
            assert(s[i] == s.subrange(pos, pos + name.len())[i - pos]);
        }
        name.len() as int
    }
}

/// The text of a nominal type never starts with a keyword such as `"dyn "` or
/// `"mut "`.
proof fn lemma_struct_not_keyword(s: Seq<char>, pos: int, t: TypeNameView, kw: Seq<char>)
    requires
        wf(t),
        t is Struct,
        fits(s, pos, t),
        kw.len() == 4,
        is_lower(kw[0]),
        is_lower(kw[1]),
        is_lower(kw[2]),
        kw[3] == ' ',
    ensures
        !(pos + 4 <= s.len() && s.subrange(pos, pos + 4) == kw),
{
    let l = lemma_struct_word(s, pos, t);
    if pos + 4 <= s.len() && s.subrange(pos, pos + 4) == kw {
        assert forall|i: int| 0 <= i < 4 implies s[pos + i] == kw[i] by {
            assert(s[pos + i] == s.subrange(pos, pos + 4)[i]);
        }
        if l <= 3 {
            assert(s[pos + l] == kw[l]);
        } else {
            assert(is_ident_char(s[pos + 3]));
        }
    }
}

/// The first character of a type stands where the type fits.
proof fn lemma_fits_head(s: Seq<char>, pos: int, t: TypeNameView)
    requires
        wf(t),
        fits(s, pos, t),
    ensures
        pos < s.len(),
        s[pos] == full_text(t)[0],
        (t is Array || t is Slice) <==> s[pos] == '[',
        t is Pointer <==> s[pos] == '*',
        t is Never <==> s[pos] == '!',
        t is Reference <==> s[pos] == '&',
        (t is Unit || t is Tuple) <==> s[pos] == '(',
        t is Struct ==> is_ident_char(s[pos]),
        t is Trait ==> pos + 4 <= s.len() && s.subrange(pos, pos + 4) == seq!['d', 'y', 'n', ' '],
{
    lemma_text_head(t);
    lemma_char_at(s, pos, full_text(t), 0);
    if t is Trait {
        lemma_piece_at(s, pos, full_text(t), 0, seq!['d', 'y', 'n', ' ']);
    }
}

/// Reads one type at `pos`; the first character decides which production
/// applies.
fn parse_type<'a>(s: &'a str, len: usize, pos: usize) -> (r: Option<(TypeName<'a>, usize)>)
    requires
        s.is_ascii(),
        len == s@.len(),
        pos <= len,
    ensures
        r matches Some((t, end)) ==> parsed(s@, pos as int, end as int, t@),
        forall|t: TypeNameView|
            wf(t) && #[trigger] fits(s@, pos as int, t) ==> type_result(
                r,
                t,
                pos + full_text(t).len(),
            ),
    decreases len - pos, 2nat,
{
    proof {
        assert forall|t: TypeNameView| wf(t) && #[trigger] fits(s@, pos as int, t) implies pos
            < len by {
            lemma_fits_head(s@, pos as int, t);
        }
    }
    if pos >= len {
        return None;
    }
    let c = char_at(s, pos);
    if c == '[' {
        array_or_slice(s, len, pos)
    } else if c == '*' {
        pointer_type(s, len, pos)
    } else if c == '!' {
        assert(s@.subrange(pos as int, pos + 1) =~= seq!['!']);
        proof {
            assert forall|t: TypeNameView| wf(t) && #[trigger] fits(s@, pos as int, t) implies t
                is Never by {
                lemma_fits_head(s@, pos as int, t);
            }
        }
        Some((TypeName::Never, pos + 1))
    } else if c == '&' {
        parse_reference(s, len, pos)
    } else if c == '(' {
        parse_unit_or_tuple(s, len, pos)
    } else if starts_with_at(s, len, pos, "dyn ") {
        proof {
            reveal_strlit("dyn ");
            assert("dyn "@ =~= seq!['d', 'y', 'n', ' ']);
        }
        trait_type(s, len, pos)
    } else {
        proof {
            reveal_strlit("dyn ");
            assert("dyn "@ =~= seq!['d', 'y', 'n', ' ']);
        }
        named_primitive_or_struct(s, len, pos)
    }
}

/// `t` is a well-formed tree whose fully qualified text stands in `s` from
/// `pos` to `end`.
spec fn parsed(s: Seq<char>, pos: int, end: int, t: TypeNameView) -> bool {
    &&& pos < end <= s.len()
    &&& wf(t)
    &&& s.subrange(pos, end) == full_text(t)
}

/// Where a slice or an array fits at `pos`, its element fits after the `'['`,
/// and `']'` or `"; "`, the length and `']'` follow it.
proof fn lemma_array_parts(s: Seq<char>, pos: int, t: TypeNameView)
    requires
        wf(t),
        fits(s, pos, t),
        t is Array || t is Slice,
    ensures
        ({
            let elem = if t is Array {
                *t->Array_elem
            } else {
                *t->Slice_elem
            };
            let q = pos + 1 + full_text(elem).len();
            &&& wf(elem)
            &&& fits(s, pos + 1, elem)
            &&& t is Slice ==> q < s.len() && s[q] == ']' && pos + full_text(t).len() == q + 1
            &&& t is Array ==> {
                let l = t->Array_len;
                &&& q + 2 + l.len() < s.len()
                &&& s[q] == ';'
                &&& s.subrange(q, q + 2) == seq![';', ' ']
                &&& s.subrange(q + 2, q + 2 + l.len()) == l
                &&& s[q + 2 + l.len()] == ']'
                &&& is_length_text(l)
                &&& pos + full_text(t).len() == q + 3 + l.len()
            }
        }),
{
    let text = full_text(t);
    match t {
        TypeNameView::Slice { elem } => {
            let inner = full_text(*elem);
            let il = inner.len() as int;
            assert(text.subrange(1, 1 + il) =~= inner);
            lemma_piece_at(s, pos, text, 1, inner);
            lemma_char_at(s, pos, text, 1 + il);
        },
        TypeNameView::Array { elem, len } => {
            let inner = full_text(*elem);
            let il = inner.len() as int;
            let q = 1 + il;
            assert(text.subrange(1, 1 + il) =~= inner);
            lemma_piece_at(s, pos, text, 1, inner);
            lemma_char_at(s, pos, text, q);
            assert(text.subrange(q, q + 2) =~= seq![';', ' ']);
            lemma_piece_at(s, pos, text, q, seq![';', ' ']);
            assert(text.subrange(q + 2, q + 2 + len.len() as int) =~= len);
            lemma_piece_at(s, pos, text, q + 2, len);
            lemma_char_at(s, pos, text, q + 2 + len.len() as int);
        },
        _ => {},
    }
}

/// Reads `"[T]"` or `"[T; len]"` at `pos`.
fn array_or_slice<'a>(s: &'a str, len: usize, pos: usize) -> (r: Option<(TypeName<'a>, usize)>)
    requires
        s.is_ascii(),
        len == s@.len(),
        pos < len,
        s@[pos as int] == '[',
    ensures
        r matches Some((t, end)) ==> parsed(s@, pos as int, end as int, t@),
        forall|t: TypeNameView|
            wf(t) && #[trigger] fits(s@, pos as int, t) ==> type_result(
                r,
                t,
                pos + full_text(t).len(),
            ),
    decreases len - pos, 1nat,
{
    proof {
        reveal_strlit("; ");
        assert("; "@ =~= seq![';', ' ']);
        assert forall|t: TypeNameView| wf(t) && #[trigger] fits(s@, pos as int, t) implies (t is Array
            || t is Slice) by {
            lemma_fits_head(s@, pos as int, t);
        }
    }
    let inner = parse_type(s, len, pos + 1);
    proof {
        assert forall|t: TypeNameView| wf(t) && #[trigger] fits(s@, pos as int, t) implies {
            let elem = if t is Array {
                *t->Array_elem
            } else {
                *t->Slice_elem
            };
            type_result(inner, elem, pos + 1 + full_text(elem).len())
        } by {
            lemma_array_parts(s@, pos as int, t);
        }
    }
    let (elem, e) = match inner {
        None => {
            return None;
        },
        Some(x) => x,
    };
    if e < len && char_at(s, e) == ']' {
        let t = TypeName::Slice(TypeNameSlice { type_param: Box::new(elem) });
        assert(s@.subrange(pos as int, e + 1) =~= seq!['['] + full_text(elem@) + seq![']']);
        proof {
            assert forall|t2: TypeNameView| wf(t2) && #[trigger] fits(s@, pos as int, t2) implies type_result(
                Some((t, (e + 1) as usize)),
                t2,
                pos + full_text(t2).len(),
            ) by {
                lemma_array_parts(s@, pos as int, t2);
            }
        }
        Some((t, e + 1))
    } else if starts_with_at(s, len, e, "; ") {
        let close = find_close_bracket(s, len, e + 2);
        proof {
            assert forall|t2: TypeNameView| wf(t2) && #[trigger] fits(s@, pos as int, t2) implies t2 is Array
                && close == Some((e + 2 + t2->Array_len.len()) as usize) by {
                lemma_array_parts(s@, pos as int, t2);
                let l = t2->Array_len;
                assert forall|i: int| e + 2 <= i < e + 2 + l.len() implies #[trigger] s@[i] != ']' by {
                    assert(s@[i] == s@.subrange(e + 2, e + 2 + l.len())[i - (e + 2)]);
                }
            }
        }
        match close {
            None => None,
            Some(j) => {
                let l = s.substring_ascii(e + 2, j);
                let t = TypeName::Array(TypeNameArray { type_param: Box::new(elem), len: l });
                assert(is_length_text(l@)) by {
                    assert forall|i: int| 0 <= i < l@.len() implies #[trigger] l@[i] != ']' && '\0'
                        <= l@[i] <= '\u{7f}' by {
                        assert(l@[i] == s@[e + 2 + i]);
                    }
                }
                assert(s@.subrange(pos as int, j + 1) =~= seq!['['] + full_text(elem@) + seq![
                    ';',
                    ' ',
                ] + l@ + seq![']']);
                proof {
                    assert forall|t2: TypeNameView| wf(t2) && #[trigger] fits(s@, pos as int, t2) implies type_result(
                        Some((t, (j + 1) as usize)),
                        t2,
                        pos + full_text(t2).len(),
                    ) by {
                        lemma_array_parts(s@, pos as int, t2);
                    }
                }
                Some((t, j + 1))
            },
        }
    } else {
        proof {
            assert forall|t2: TypeNameView| wf(t2) && #[trigger] fits(s@, pos as int, t2) implies false by {
                lemma_array_parts(s@, pos as int, t2);
            }
        }
        None
    }
}

/// Where a pointer fits at `pos`, its kind and a space follow the `'*'` and
/// its target fits after them.
proof fn lemma_pointer_parts(s: Seq<char>, pos: int, t: TypeNameView)
    requires
        wf(t),
        fits(s, pos, t),
        t is Pointer,
    ensures
        ({
            let kind = t->const_or_mut;
            let p = pos + 1 + kind.len() + 1;
            &&& is_pointer_kind(kind)
            &&& wf(*t->Pointer_elem)
            &&& s.subrange(pos + 1, p) == kind + seq![' ']
            &&& fits(s, p, *t->Pointer_elem)
            &&& pos + full_text(t).len() == p + full_text(*t->Pointer_elem).len()
        }),
{
    let text = full_text(t);
    let kind = t->const_or_mut;
    let inner = full_text(*t->Pointer_elem);
    let kl = kind.len() as int;
    let il = inner.len() as int;
    assert(text.subrange(1, 1 + kl + 1) =~= kind + seq![' ']);
    lemma_piece_at(s, pos, text, 1, kind + seq![' ']);
    assert(text.subrange(kl + 2, kl + 2 + il) =~= inner);
    lemma_piece_at(s, pos, text, kl + 2, inner);
}

/// Reads `"*const T"` or `"*mut T"` at `pos`.
fn pointer_type<'a>(s: &'a str, len: usize, pos: usize) -> (r: Option<(TypeName<'a>, usize)>)
    requires
        s.is_ascii(),
        len == s@.len(),
        pos < len,
        s@[pos as int] == '*',
    ensures
        r matches Some((t, end)) ==> parsed(s@, pos as int, end as int, t@),
        forall|t: TypeNameView|
            wf(t) && #[trigger] fits(s@, pos as int, t) ==> type_result(
                r,
                t,
                pos + full_text(t).len(),
            ),
    decreases len - pos, 1nat,
{
    proof {
        reveal_strlit("const ");
        reveal_strlit("mut ");
        assert("const "@ =~= seq!['c', 'o', 'n', 's', 't', ' ']);
        assert("mut "@ =~= seq!['m', 'u', 't', ' ']);
    }
    let is_const = starts_with_at(s, len, pos + 1, "const ");
    let is_mut = !is_const && starts_with_at(s, len, pos + 1, "mut ");
    proof {
        assert forall|t: TypeNameView| wf(t) && #[trigger] fits(s@, pos as int, t) implies t is Pointer
            && (is_const || is_mut) && (is_const <==> t->const_or_mut == seq!['c', 'o', 'n', 's', 't']) by {
            lemma_fits_head(s@, pos as int, t);
            lemma_pointer_parts(s@, pos as int, t);
            let kind = t->const_or_mut;
            assert(is_pointer_kind(kind));
            if kind == seq!['c', 'o', 'n', 's', 't'] {
                assert(kind + seq![' '] =~= seq!['c', 'o', 'n', 's', 't', ' ']);
                assert(s@.subrange(pos + 1, pos + 7) == seq!['c', 'o', 'n', 's', 't', ' ']);
                assert(is_const);
            } else {
                assert(kind == seq!['m', 'u', 't']);
                assert(kind + seq![' '] =~= seq!['m', 'u', 't', ' ']);
                assert(s@.subrange(pos + 1, pos + 5) == seq!['m', 'u', 't', ' ']);
                assert(s@[pos + 1] == s@.subrange(pos + 1, pos + 5)[0]);
                if is_const {
                    assert(s@[pos + 1] == s@.subrange(pos + 1, pos + 7)[0]);
                }
                assert(!is_const);
                assert(is_mut);
            }
        }
    }
    let p = if is_const {
        pos + 7
    } else if is_mut {
        pos + 5
    } else {
        return None;
    };
    let kind = s.substring_ascii(pos + 1, p - 1);
    let inner = parse_type(s, len, p);
    proof {
        assert forall|t: TypeNameView| wf(t) && #[trigger] fits(s@, pos as int, t) implies kind@
            == t->const_or_mut && type_result(
            inner,
            *t->Pointer_elem,
            pos + full_text(t).len(),
        ) by {
            lemma_pointer_parts(s@, pos as int, t);
            let k = t->const_or_mut;
            assert(kind@ =~= (k + seq![' ']).subrange(0, k.len() as int));
        }
    }
    let (elem, e) = match inner {
        None => {
            return None;
        },
        Some(x) => x,
    };
    let t = TypeName::Pointer(TypeNamePointer { const_or_mut: kind, type_param: Box::new(elem) });
    assert(is_pointer_kind(kind@)) by {
        if p == pos + 7 {
            assert(kind@ =~= seq!['c', 'o', 'n', 's', 't']);
        } else {
            assert(kind@ =~= seq!['m', 'u', 't']);
        }
    }
    assert(s@.subrange(pos as int, e as int) =~= seq!['*'] + kind@ + seq![' '] + full_text(elem@));
    Some((t, e))
}

/// Where a reference fits at `pos`, its target fits after the `'&'` and the
/// `"mut "` of a mutable one or the space of a spaced one; a `"mut "` stands
/// there only for a mutable one, and a space only for a spaced one.
proof fn lemma_reference_parts(s: Seq<char>, pos: int, t: TypeNameView)
    requires
        wf(t),
        fits(s, pos, t),
        t is Reference,
    ensures
        ({
            let elem = *t->Reference_elem;
            let p = if t->mutable {
                pos + 5
            } else if t->spaced {
                pos + 2
            } else {
                pos + 1
            };
            &&& wf(elem)
            &&& fits(s, p, elem)
            &&& t->mutable <==> (pos + 5 <= s.len() && s.subrange(pos + 1, pos + 5) == seq![
                'm',
                'u',
                't',
                ' ',
            ])
            &&& !t->mutable ==> (t->spaced <==> (pos + 1 < s.len() && s[pos + 1] == ' '))
            &&& pos + full_text(t).len() == p + full_text(elem).len()
        }),
{
    let text = full_text(t);
    let elem = *t->Reference_elem;
    let inner = full_text(elem);
    let il = inner.len() as int;
    if t->mutable {
        assert(text.subrange(1, 5) =~= seq!['m', 'u', 't', ' ']);
        lemma_piece_at(s, pos, text, 1, seq!['m', 'u', 't', ' ']);
        assert(text.subrange(5, 5 + il) =~= inner);
        lemma_piece_at(s, pos, text, 5, inner);
    } else if t->spaced {
        lemma_char_at(s, pos, text, 1);
        assert(text.subrange(2, 2 + il) =~= inner);
        lemma_piece_at(s, pos, text, 2, inner);
        if pos + 5 <= s.len() && s.subrange(pos + 1, pos + 5) == seq!['m', 'u', 't', ' '] {
            assert(s[pos + 1] == s.subrange(pos + 1, pos + 5)[0]);
        }
    } else {
        assert(text.subrange(1, 1 + il) =~= inner);
        lemma_piece_at(s, pos, text, 1, inner);
        lemma_fits_head(s, pos + 1, elem);
        lemma_text_head(elem);
        if elem is Struct {
            lemma_struct_not_keyword(s, pos + 1, elem, seq!['m', 'u', 't', ' ']);
        } else if pos + 5 <= s.len() && s.subrange(pos + 1, pos + 5) == seq!['m', 'u', 't', ' '] {
            assert(s[pos + 1] == s.subrange(pos + 1, pos + 5)[0]);
        }
        if elem is Trait {
            assert(s[pos + 1] == s.subrange(pos + 1, pos + 5)[0]);
        }
    }
}

/// Reads `"&T"`, `"& T"` or `"&mut T"` at `pos`.
fn parse_reference<'a>(s: &'a str, len: usize, pos: usize) -> (r: Option<(TypeName<'a>, usize)>)
    requires
        s.is_ascii(),
        len == s@.len(),
        pos < len,
        s@[pos as int] == '&',
    ensures
        r matches Some((t, end)) ==> parsed(s@, pos as int, end as int, t@),
        forall|t: TypeNameView|
            wf(t) && #[trigger] fits(s@, pos as int, t) ==> type_result(
                r,
                t,
                pos + full_text(t).len(),
            ),
    decreases len - pos, 1nat,
{
    proof {
        reveal_strlit("mut ");
        assert("mut "@ =~= seq!['m', 'u', 't', ' ']);
    }
    let mutable = starts_with_at(s, len, pos + 1, "mut ");
    let spaced = !mutable && pos + 1 < len && char_at(s, pos + 1) == ' ';
    let p = if mutable {
        pos + 5
    } else if spaced {
        pos + 2
    } else {
        pos + 1
    };
    let inner = parse_type(s, len, p);
    proof {
        assert forall|t: TypeNameView| wf(t) && #[trigger] fits(s@, pos as int, t) implies t is Reference
            && t->mutable == mutable && t->spaced == spaced && type_result(
            inner,
            *t->Reference_elem,
            pos + full_text(t).len(),
        ) by {
            lemma_fits_head(s@, pos as int, t);
            lemma_reference_parts(s@, pos as int, t);
        }
    }
    let (elem, e) = match inner {
        None => {
            return None;
        },
        Some(x) => x,
    };
    let t = TypeName::Reference(TypeNameReference { mutable, spaced, type_param: Box::new(elem) });
    assert(s@.subrange(pos as int, e as int) =~= seq!['&'] + (if mutable {
        seq!['m', 'u', 't', ' ']
    } else if spaced {
        seq![' ']
    } else {
        seq![]
    }) + full_text(elem@));
    Some((t, e))
}

/// Where a tuple fits at `pos`, its elements fit after the `'('` as a list,
/// which `",)"` follows for one element or a trailing comma, and `')'`
/// otherwise.
proof fn lemma_tuple_parts(s: Seq<char>, pos: int, t: TypeNameView)
    requires
        wf(t),
        fits(s, pos, t),
        t is Tuple,
    ensures
        ({
            let elems = t->elems;
            let q = pos + 1 + full_text_list(elems).len();
            let comma_close = elems.len() == 1 || t->trailing_comma;
            &&& list_fits(s, pos + 1, elems)
            &&& pos + 1 < s.len()
            &&& s[pos + 1] != ')'
            &&& comma_close ==> q + 2 <= s.len() && s[q] == ',' && s.subrange(q, q + 2) == seq![
                ',',
                ')',
            ] && pos + full_text(t).len() == q + 2
            &&& !comma_close ==> q < s.len() && s[q] == ')' && pos + full_text(t).len() == q + 1
        }),
{
    let text = full_text(t);
    let elems = t->elems;
    let inner = full_text_list(elems);
    let il = inner.len() as int;
    assert(text.subrange(1, 1 + il) =~= inner);
    lemma_piece_at(s, pos, text, 1, inner);
    let q = 1 + il;
    if elems.len() == 1 || t->trailing_comma {
        assert(text.subrange(q, q + 2) =~= seq![',', ')']);
        lemma_piece_at(s, pos, text, q, seq![',', ')']);
        assert(s[pos + q] == s.subrange(pos + q, pos + q + 2)[0]);
        assert(s[pos + q + 1] == s.subrange(pos + q, pos + q + 2)[1]);
    } else {
        lemma_char_at(s, pos, text, q);
    }
    lemma_wf_list(elems);
    assert(list_fits(s, pos + 1, elems));
    lemma_list_elem(s, pos + 1, elems, 0);
    lemma_fits_head(s, pos + 1, elems[0]);
}

/// Reads `"()"` or a tuple at `pos`; a tuple of one element ends in `",)"`,
/// one of more elements in `")"` or `",)"`.
fn parse_unit_or_tuple<'a>(s: &'a str, len: usize, pos: usize) -> (r: Option<(TypeName<'a>, usize)>)
    requires
        s.is_ascii(),
        len == s@.len(),
        pos < len,
        s@[pos as int] == '(',
    ensures
        r matches Some((t, end)) ==> parsed(s@, pos as int, end as int, t@),
        forall|t: TypeNameView|
            wf(t) && #[trigger] fits(s@, pos as int, t) ==> type_result(
                r,
                t,
                pos + full_text(t).len(),
            ),
    decreases len - pos, 1nat,
{
    proof {
        reveal_strlit(",)");
        assert(",)"@ =~= seq![',', ')']);
        assert forall|t: TypeNameView| wf(t) && #[trigger] fits(s@, pos as int, t) implies (t is Unit
            || t is Tuple) by {
            lemma_fits_head(s@, pos as int, t);
        }
    }
    if pos + 1 < len && char_at(s, pos + 1) == ')' {
        assert(s@.subrange(pos as int, pos + 2) =~= seq!['(', ')']);
        proof {
            assert forall|t: TypeNameView| wf(t) && #[trigger] fits(s@, pos as int, t) implies t is Unit by {
                if t is Tuple {
                    lemma_tuple_parts(s@, pos as int, t);
                }
            }
        }
        return Some((TypeName::Unit, pos + 2));
    }
    let inner = parse_list(s, len, pos + 1);
    proof {
        assert forall|t: TypeNameView| wf(t) && #[trigger] fits(s@, pos as int, t) implies t is Tuple
            && list_result(inner, t->elems, pos + 1 + full_text_list(t->elems).len()) by {
            if t is Unit {
                lemma_char_at(s@, pos as int, full_text(t), 1);
            }
            lemma_tuple_parts(s@, pos as int, t);
        }
    }
    let (elems, e) = match inner {
        None => {
            return None;
        },
        Some(x) => x,
    };
    let ghost views = type_names_view(elems@);
    proof {
        lemma_type_names_view(elems@);
    }
    if elems.len() > 1 && e < len && char_at(s, e) == ')' {
        let t = TypeName::Tuple(TypeNameTuple { type_params: elems, trailing_comma: false });
        assert(s@.subrange(pos as int, e + 1) =~= seq!['('] + full_text_list(views) + seq![')']);
        proof {
            assert forall|t2: TypeNameView| wf(t2) && #[trigger] fits(s@, pos as int, t2) implies type_result(
                Some((t, (e + 1) as usize)),
                t2,
                pos + full_text(t2).len(),
            ) by {
                lemma_tuple_parts(s@, pos as int, t2);
            }
        }
        Some((t, e + 1))
    } else if starts_with_at(s, len, e, ",)") {
        let trailing_comma = elems.len() > 1;
        let t = TypeName::Tuple(TypeNameTuple { type_params: elems, trailing_comma });
        assert(s@.subrange(pos as int, e + 2) =~= seq!['('] + full_text_list(views) + seq![
            ',',
            ')',
        ]);
        proof {
            assert forall|t2: TypeNameView| wf(t2) && #[trigger] fits(s@, pos as int, t2) implies type_result(
                Some((t, (e + 2) as usize)),
                t2,
                pos + full_text(t2).len(),
            ) by {
                lemma_tuple_parts(s@, pos as int, t2);
            }
        }
        Some((t, e + 2))
    } else {
        proof {
            assert forall|t2: TypeNameView| wf(t2) && #[trigger] fits(s@, pos as int, t2) implies false by {
                lemma_tuple_parts(s@, pos as int, t2);
            }
        }
        None
    }
}

/// Where a trait object fits at `pos`, its nominal type fits after `"dyn "`.
proof fn lemma_trait_parts(s: Seq<char>, pos: int, t: TypeNameView)
    requires
        wf(t),
        fits(s, pos, t),
        t is Trait,
    ensures
        nominal_fits(
            s,
            pos + 4,
            t->Trait_module_segments,
            t->Trait_simple_name,
            t->Trait_type_params,
        ),
        pos + full_text(t).len() == pos + 4 + nominal_full_text(
            t->Trait_module_segments,
            t->Trait_simple_name,
            t->Trait_type_params,
        ).len(),
{
    let text = full_text(t);
    let inner = nominal_full_text(
        t->Trait_module_segments,
        t->Trait_simple_name,
        t->Trait_type_params,
    );
    assert(text =~= seq!['d', 'y', 'n', ' '] + inner);
    assert(text.subrange(4, 4 + inner.len() as int) =~= inner);
    lemma_piece_at(s, pos, text, 4, inner);
}

/// Reads a trait object `"dyn "` followed by a nominal type at `pos`.
fn trait_type<'a>(s: &'a str, len: usize, pos: usize) -> (r: Option<(TypeName<'a>, usize)>)
    requires
        s.is_ascii(),
        len == s@.len(),
        pos + 4 <= len,
        s@.subrange(pos as int, pos + 4) == seq!['d', 'y', 'n', ' '],
    ensures
        r matches Some((t, end)) ==> parsed(s@, pos as int, end as int, t@),
        forall|t: TypeNameView|
            wf(t) && #[trigger] fits(s@, pos as int, t) ==> type_result(
                r,
                t,
                pos + full_text(t).len(),
            ),
    decreases len - pos, 1nat,
{
    let inner = struct_type(s, len, pos + 4);
    proof {
        assert forall|t: TypeNameView| wf(t) && #[trigger] fits(s@, pos as int, t) implies t is Trait
            && nominal_result(
            inner,
            TypeNameView::Struct {
                module_segments: t->Trait_module_segments,
                simple_name: t->Trait_simple_name,
                type_params: t->Trait_type_params,
            },
            pos + full_text(t).len(),
        ) by {
            lemma_fits_head(s@, pos as int, t);
            assert(s@[pos as int] == s@.subrange(pos as int, pos + 4)[0]);
            if t is Struct {
                lemma_struct_not_keyword(s@, pos as int, t, seq!['d', 'y', 'n', ' ']);
            }
            lemma_trait_parts(s@, pos as int, t);
        }
    }
    match inner {
        None => None,
        Some((inner, e)) => {
            let ghost path = segments_view(inner.module_segments@);
            let ghost name = inner.simple_name@;
            let ghost params = type_names_view(inner.type_params@);
            assert(nominal_text(s@.subrange(pos + 4, e as int), inner@));
            assert(is_module_path(path) && is_simple_name(name) && wf_list(params));
            assert(s@.subrange(pos + 4, e as int) == full_path(path) + name + angled(
                params.len(),
                full_text_list(params),
            ));
            let t = TypeName::Trait(TypeNameTrait { inner });
            assert(s@.subrange(pos as int, e as int) =~= seq!['d', 'y', 'n', ' '] + (full_path(path)
                + name + angled(params.len(), full_text_list(params))));
            assert(t@ == TypeNameView::Trait {
                module_segments: path,
                simple_name: name,
                type_params: params,
            });
            assert(wf(t@));
            assert(full_text(t@) =~= seq!['d', 'y', 'n', ' '] + (full_path(path) + name + angled(
                params.len(),
                full_text_list(params),
            )));
            Some((t, e))
        },
    }
}

/// Reads a primitive, or else a nominal type whose module path does not start
/// with a primitive's name, at `pos`.
fn named_primitive_or_struct<'a>(s: &'a str, len: usize, pos: usize) -> (r: Option<
    (TypeName<'a>, usize),
>)
    requires
        s.is_ascii(),
        len == s@.len(),
        pos < len,
        s@[pos as int] != '[',
        s@[pos as int] != '*',
        s@[pos as int] != '!',
        s@[pos as int] != '&',
        s@[pos as int] != '(',
        !(pos + 4 <= len && s@.subrange(pos as int, pos + 4) == seq!['d', 'y', 'n', ' ']),
    ensures
        r matches Some((t, end)) ==> parsed(s@, pos as int, end as int, t@),
        forall|t: TypeNameView|
            wf(t) && #[trigger] fits(s@, pos as int, t) ==> type_result(
                r,
                t,
                pos + full_text(t).len(),
            ),
    decreases len - pos, 1nat,
{
    let w = scan_ident_chars(s, len, pos);
    let word = s.substring_ascii(pos, w);
    proof {
        assert forall|t: TypeNameView| wf(t) && #[trigger] fits(s@, pos as int, t) implies {
            &&& t is Struct
            &&& word@ == if t->Struct_module_segments.len() > 0 {
                t->Struct_module_segments[0]
            } else {
                t->Struct_simple_name
            }
            &&& is_primitive(word@) <==> is_primitive(t->Struct_simple_name)
                && t->Struct_module_segments.len() == 0
        } by {
            lemma_fits_head(s@, pos as int, t);
            let l = lemma_struct_word(s@, pos as int, t);
            if w < pos + l {
                assert(is_ident_char(s@[w as int]));
            }
            if w > pos + l {
                assert(is_ident_char(s@[pos + l]));
            }
            let path = t->Struct_module_segments;
            let name = t->Struct_simple_name;
            if path.len() == 0 && !is_primitive(name) && is_primitive(word@) {
                lemma_primitive_chars(word@);
            }
        }
    }
    if is_primitive_str(word) {
        let n = TypeNameStruct {
            module_segments: Vec::new(),
            simple_name: word,
            type_params: Vec::new(),
        };
        proof {
            assert(type_names_view(n.type_params@) =~= Seq::<TypeNameView>::empty());
            assert(segments_view(n.module_segments@) =~= Seq::<Seq<char>>::empty());
            lemma_primitive_chars(word@);
            assert(full_text(TypeName::Struct(n)@) =~= word@);
            assert forall|t: TypeNameView| wf(t) && #[trigger] fits(s@, pos as int, t) implies type_result(
                Some((TypeName::Struct(n), w)),
                t,
                pos + full_text(t).len(),
            ) by {
                assert(t->Struct_type_params =~= Seq::<TypeNameView>::empty());
                assert(t->Struct_module_segments =~= Seq::<Seq<char>>::empty());
                assert(full_text(t) =~= word@);
            }
        }
        return Some((TypeName::Struct(n), w));
    }
    let inner = struct_type(s, len, pos);
    proof {
        assert forall|t: TypeNameView| wf(t) && #[trigger] fits(s@, pos as int, t) implies nominal_result(
            inner,
            t,
            pos + full_text(t).len(),
        ) by {
            let path = t->Struct_module_segments;
            let name = t->Struct_simple_name;
            let params = t->Struct_type_params;
            assert(nominal_fits(s@, pos as int, path, name, params));
        }
    }
    match inner {
        None => None,
        Some((n, e)) => {
            if n.module_segments.len() > 0 && is_primitive_str(n.module_segments[0]) {
                return None;
            }
            proof {
                if n.module_segments.len() > 0 {
                    assert(segments_view(n.module_segments@)[0] == n.module_segments@[0]@);
                }
            }
            Some((TypeName::Struct(n), e))
        },
    }
}

/// Two runs of characters of one class that start at `p` and end where the
/// class stops have the same length.
proof fn lemma_runs_agree(s: Seq<char>, p: int, a: int, b: int, in_a: spec_fn(char) -> bool)
    requires
        p <= a <= s.len(),
        p <= b <= s.len(),
        forall|i: int| p <= i < a ==> #[trigger] in_a(s[i]),
        forall|i: int| p <= i < b ==> #[trigger] in_a(s[i]),
        a == s.len() || !in_a(s[a]),
        b == s.len() || !in_a(s[b]),
    ensures
        a == b,
{
    if a < b {
        assert(in_a(s[a]));
    }
    if b < a {
        assert(in_a(s[b]));
    }
}

/// Where a nominal type fits at `pos`, its name is the whole run of
/// identifier characters after its path.
proof fn lemma_nominal_name_run(
    s: Seq<char>,
    pos: int,
    path: Seq<Seq<char>>,
    name: Seq<char>,
    params: Seq<TypeNameView>,
)
    requires
        nominal_fits(s, pos, path, name, params),
    ensures
        ({
            let p = pos + full_path(path).len();
            let e = p + name.len();
            &&& e <= s.len()
            &&& forall|i: int| p <= i < e ==> is_ident_char(#[trigger] s[i])
            &&& e == s.len() || !is_ident_char(s[e])
        }),
{
    let text = nominal_full_text(path, name, params);
    let l = full_path(path).len() as int;
    let p = pos + l;
    let after = p + name.len();
    assert(s.subrange(pos, pos + text.len()) == text);
    assert forall|i: int| p <= i < after implies is_ident_char(#[trigger] s[i]) by {
        assert(s[i] == s.subrange(pos, pos + text.len())[i - pos]);
        assert(text[l + (i - p)] == name[i - p]);
    }
    if params.len() > 0 {
        assert(s[after] == s.subrange(pos, pos + text.len())[after - pos]);
        assert(text[l + name.len()] == '<');
    } else {
        assert(text =~= full_path(path) + name);
        assert(ends_type(s, after));
    }
}

/// Two nominal types that fit at the same position are the same.
proof fn lemma_nominal_unique(
    s: Seq<char>,
    pos: int,
    path1: Seq<Seq<char>>,
    name1: Seq<char>,
    params1: Seq<TypeNameView>,
    path2: Seq<Seq<char>>,
    name2: Seq<char>,
    params2: Seq<TypeNameView>,
)
    requires
        nominal_fits(s, pos, path1, name1, params1),
        nominal_fits(s, pos, path2, name2, params2),
    ensures
        path1 == path2,
        name1 == name2,
        params1 == params2,
    decreases params1, 1nat, 0nat,
{
    assert(path1.take(0) =~= path2.take(0));
    lemma_nominal_paths_agree(s, pos, path1, name1, params1, path2, name2, params2, 0);
    let p = pos + full_path(path1).len();
    lemma_nominal_name_run(s, pos, path1, name1, params1);
    lemma_nominal_name_run(s, pos, path2, name2, params2);
    let is_ident = |c: char| is_ident_char(c);
    lemma_runs_agree(s, p, p + name1.len(), p + name2.len(), is_ident);
    let e = p + name1.len();
    lemma_nominal_name(s, pos, path1, name1, params1, p, e);
    lemma_nominal_name(s, pos, path2, name2, params2, p, e);
    if params1.len() > 0 {
        assert(params1.take(0) =~= params2.take(0));
        lemma_list_unique(s, e + 1, params1, params2, 0);
    } else {
        assert(params1 =~= params2);
    }
}

/// Where two nominal types fit at `pos` and their first `k` segments agree,
/// their paths agree.
proof fn lemma_nominal_paths_agree(
    s: Seq<char>,
    pos: int,
    path1: Seq<Seq<char>>,
    name1: Seq<char>,
    params1: Seq<TypeNameView>,
    path2: Seq<Seq<char>>,
    name2: Seq<char>,
    params2: Seq<TypeNameView>,
    k: int,
)
    requires
        nominal_fits(s, pos, path1, name1, params1),
        nominal_fits(s, pos, path2, name2, params2),
        0 <= k <= path1.len(),
        k <= path2.len(),
        path1.take(k) == path2.take(k),
    ensures
        path1 == path2,
    decreases path1.len() - k,
{
    let p = pos + full_path(path1.take(k)).len();
    if k < path1.len() {
        lemma_path_prefix(path1, k);
        let l = full_path(path1.take(k)).len() as int;
        assert(is_module_segment(path1[k]));
        assert(nominal_full_text(path1, name1, params1).subrange(l, l + path1[k].len() + 2)
            == full_path(path1).subrange(l, l + path1[k].len() + 2));
        lemma_char_at(s, pos, nominal_full_text(path1, name1, params1), l);
        assert(s[p] == (path1[k] + colons())[0]);
        lemma_nominal_segment(s, pos, path1, name1, params1, k, p);
        lemma_nominal_segment(s, pos, path2, name2, params2, k, p);
        let w1 = path1[k];
        let w2 = path2[k];
        assert(is_module_segment(w2));
        assert forall|i: int| p <= i < p + w1.len() implies is_module_char(#[trigger] s[i]) by {
            assert(s[i] == s.subrange(p, p + w1.len())[i - p]);
        }
        assert forall|i: int| p <= i < p + w2.len() implies is_module_char(#[trigger] s[i]) by {
            assert(s[i] == s.subrange(p, p + w2.len())[i - p]);
        }
        let is_module = |c: char| is_module_char(c);
        lemma_runs_agree(s, p, p + w1.len(), p + w2.len(), is_module);
        assert(w1 == w2);
        assert(path1.take(k + 1) =~= path1.take(k).push(w1));
        assert(path2.take(k + 1) =~= path2.take(k).push(w2));
        lemma_nominal_paths_agree(s, pos, path1, name1, params1, path2, name2, params2, k + 1);
    } else if k < path2.len() {
        lemma_path_prefix(path2, k);
        let l = full_path(path2.take(k)).len() as int;
        assert(is_module_segment(path2[k]));
        assert(nominal_full_text(path2, name2, params2).subrange(l, l + path2[k].len() + 2)
            == full_path(path2).subrange(l, l + path2[k].len() + 2));
        lemma_char_at(s, pos, nominal_full_text(path2, name2, params2), l);
        assert(s[p] == (path2[k] + colons())[0]);
        lemma_nominal_segment(s, pos, path1, name1, params1, k, p);
    } else {
        assert(path1 =~= path1.take(k));
        assert(path2 =~= path2.take(k));
    }
}

/// Where two lists fit at `pos` and their first `k` elements agree, they
/// agree.
proof fn lemma_list_unique(
    s: Seq<char>,
    pos: int,
    ts1: Seq<TypeNameView>,
    ts2: Seq<TypeNameView>,
    k: int,
)
    requires
        list_fits(s, pos, ts1),
        list_fits(s, pos, ts2),
        0 <= k <= ts1.len(),
        k <= ts2.len(),
        ts1.take(k) == ts2.take(k),
    ensures
        ts1 == ts2,
    decreases ts1, 0nat, ts1.len() - k,
{
    if k < ts1.len() && k < ts2.len() {
        lemma_list_elem(s, pos, ts1, k);
        lemma_list_elem(s, pos, ts2, k);
        if k == 0 {
            lemma_fits_unique(s, pos, ts1[0], ts2[0]);
        } else {
            let p = pos + full_text_list(ts1.take(k)).len();
            lemma_fits_unique(s, p + 2, ts1[k], ts2[k]);
        }
        assert(ts1.take(k + 1) =~= ts1.take(k).push(ts1[k]));
        assert(ts2.take(k + 1) =~= ts2.take(k).push(ts2[k]));
        lemma_list_unique(s, pos, ts1, ts2, k + 1);
    } else {
        let p = pos + full_text_list(ts1.take(k)).len();
        if k < ts1.len() || k < ts2.len() {
            lemma_list_more(s, pos, ts1, k, p);
            lemma_list_more(s, pos, ts2, k, p);
        }
        assert(ts1 =~= ts1.take(k));
        assert(ts2 =~= ts2.take(k));
    }
}

/// Two well-formed trees that fit at the same position are the same.
proof fn lemma_fits_unique(s: Seq<char>, pos: int, t1: TypeNameView, t2: TypeNameView)
    requires
        wf(t1),
        wf(t2),
        fits(s, pos, t1),
        fits(s, pos, t2),
    ensures
        t1 == t2,
    decreases t1, 0nat, 0nat,
{
    lemma_fits_head(s, pos, t1);
    lemma_fits_head(s, pos, t2);
    if t1 is Array || t1 is Slice {
        lemma_array_parts(s, pos, t1);
        lemma_array_parts(s, pos, t2);
        let e1 = if t1 is Array {
            *t1->Array_elem
        } else {
            *t1->Slice_elem
        };
        let e2 = if t2 is Array {
            *t2->Array_elem
        } else {
            *t2->Slice_elem
        };
        lemma_fits_unique(s, pos + 1, e1, e2);
        if t1 is Array && t2 is Array {
            let q = pos + 1 + full_text(e1).len();
            let l1 = t1->Array_len;
            let l2 = t2->Array_len;
            let not_close = |c: char| c != ']';
            assert forall|i: int| q + 2 <= i < q + 2 + l1.len() implies #[trigger] not_close(s[i]) by {
                assert(s[i] == s.subrange(q + 2, q + 2 + l1.len())[i - (q + 2)]);
            }
            assert forall|i: int| q + 2 <= i < q + 2 + l2.len() implies #[trigger] not_close(s[i]) by {
                assert(s[i] == s.subrange(q + 2, q + 2 + l2.len())[i - (q + 2)]);
            }
            lemma_runs_agree(s, q + 2, q + 2 + l1.len(), q + 2 + l2.len(), not_close);
        }
    } else if t1 is Pointer {
        lemma_pointer_parts(s, pos, t1);
        lemma_pointer_parts(s, pos, t2);
        let k1 = t1->const_or_mut;
        let k2 = t2->const_or_mut;
        assert(s[pos + 1] == s.subrange(pos + 1, pos + 2 + k1.len())[0]);
        assert(s[pos + 1] == s.subrange(pos + 1, pos + 2 + k2.len())[0]);
        assert((k1 + seq![' '])[0] == k1[0]);
        assert((k2 + seq![' '])[0] == k2[0]);
        assert(k1 == k2);
        lemma_fits_unique(s, pos + 2 + k1.len(), *t1->Pointer_elem, *t2->Pointer_elem);
    } else if t1 is Reference {
        lemma_reference_parts(s, pos, t1);
        lemma_reference_parts(s, pos, t2);
        let p = if t1->mutable {
            pos + 5
        } else if t1->spaced {
            pos + 2
        } else {
            pos + 1
        };
        lemma_fits_unique(s, p, *t1->Reference_elem, *t2->Reference_elem);
    } else if t1 is Unit || t1 is Tuple {
        if t1 is Tuple {
            lemma_tuple_parts(s, pos, t1);
        }
        if t2 is Tuple {
            lemma_tuple_parts(s, pos, t2);
        }
        if t1 is Unit {
            lemma_char_at(s, pos, full_text(t1), 1);
        }
        if t2 is Unit {
            lemma_char_at(s, pos, full_text(t2), 1);
        }
        if t1 is Tuple && t2 is Tuple {
            assert(t1->elems.take(0) =~= t2->elems.take(0));
            lemma_list_unique(s, pos + 1, t1->elems, t2->elems, 0);
        }
    } else if t1 is Trait {
        if t2 is Struct {
            lemma_struct_not_keyword(s, pos, t2, seq!['d', 'y', 'n', ' ']);
        }
        lemma_trait_parts(s, pos, t1);
        lemma_trait_parts(s, pos, t2);
        lemma_nominal_unique(
            s,
            pos + 4,
            t1->Trait_module_segments,
            t1->Trait_simple_name,
            t1->Trait_type_params,
            t2->Trait_module_segments,
            t2->Trait_simple_name,
            t2->Trait_type_params,
        );
    } else if t1 is Struct {
        if t2 is Trait {
            lemma_struct_not_keyword(s, pos, t1, seq!['d', 'y', 'n', ' ']);
        }
        let l1 = lemma_struct_word(s, pos, t1);
        let l2 = lemma_struct_word(s, pos, t2);
        let is_ident = |c: char| is_ident_char(c);
        lemma_runs_agree(s, pos, pos + l1, pos + l2, is_ident);
        let word = s.subrange(pos, pos + l1);
        let path1 = t1->Struct_module_segments;
        let name1 = t1->Struct_simple_name;
        let params1 = t1->Struct_type_params;
        let path2 = t2->Struct_module_segments;
        let name2 = t2->Struct_simple_name;
        let params2 = t2->Struct_type_params;
        let prim1 = is_primitive(name1) && path1.len() == 0 && params1.len() == 0;
        let prim2 = is_primitive(name2) && path2.len() == 0 && params2.len() == 0;
        if !prim1 && path1.len() == 0 && is_primitive(word) {
            lemma_primitive_chars(word);
        }
        if !prim2 && path2.len() == 0 && is_primitive(word) {
            lemma_primitive_chars(word);
        }
        assert(prim1 <==> is_primitive(word));
        assert(prim2 <==> is_primitive(word));
        if prim1 {
            assert(params1 =~= params2);
            assert(path1 =~= path2);
        } else {
            assert(nominal_fits(s, pos, path1, name1, params1));
            assert(nominal_fits(s, pos, path2, name2, params2));
            lemma_nominal_unique(s, pos, path1, name1, params1, path2, name2, params2);
        }
    }
}

/// At most one tree is what a text describes.
pub proof fn lemma_describes_unique(s: Seq<char>, t1: TypeNameView, t2: TypeNameView)
    requires
        describes(s, t1),
        describes(s, t2),
    ensures
        t1 == t2,
{
    if s.len() > 0 {
        assert(s.subrange(0, s.len() as int) =~= s);
        lemma_fits_unique(s, 0, t1, t2);
    }
}

/// Whether a raw pointer occurs anywhere in the tree.
fn contains_pointer(t: &TypeName) -> (r: bool)
    ensures
        r == has_pointer(t@),
    decreases t, 1nat,
{
    match t {
        TypeName::Array(a) => contains_pointer(&a.type_param),
        TypeName::Pointer(_) => true,
        TypeName::Reference(r) => contains_pointer(&r.type_param),
        TypeName::Slice(s) => contains_pointer(&s.type_param),
        TypeName::Struct(s) => list_contains_pointer(&s.type_params),
        TypeName::Tuple(t) => list_contains_pointer(&t.type_params),
        TypeName::Trait(t) => list_contains_pointer(&t.inner.type_params),
        _ => false,
    }
}

/// Whether a raw pointer occurs in any tree of the list.
fn list_contains_pointer(ts: &Vec<TypeName>) -> (r: bool)
    ensures
        r == list_has_pointer(type_names_view(ts@)),
    decreases ts, 0nat,
{
    let ghost views = type_names_view(ts@);
    proof {
        lemma_type_names_view(ts@);
    }
    let mut i: usize = 0;
    while i < ts.len()
        invariant
            i <= ts.len(),
            views == type_names_view(ts@),
            views.len() == ts.len(),
            forall|j: int| 0 <= j < ts.len() ==> #[trigger] views[j] == ts@[j]@,
            !list_has_pointer(views.take(i as int)),
        decreases ts.len() - i,
    {
        assert(views.take(i + 1).drop_last() =~= views.take(i as int));
        if contains_pointer(&ts[i]) {
            proof {
                lemma_list_has_pointer_prefix(views, i + 1);
            }
            return true;
        }
        i = i + 1;
    }
    assert(views.take(ts.len() as int) =~= views);
    false
}

/// A pointer in a prefix of a sequence is a pointer in the sequence.
proof fn lemma_list_has_pointer_prefix(ts: Seq<TypeNameView>, k: int)
    requires
        0 <= k <= ts.len(),
        list_has_pointer(ts.take(k)),
    ensures
        list_has_pointer(ts),
    decreases ts.len() - k,
{
    if k < ts.len() {
        assert(ts.take(k + 1).drop_last() =~= ts.take(k));
        lemma_list_has_pointer_prefix(ts, k + 1);
    } else {
        assert(ts.take(k) =~= ts);
    }
}

impl<'s> TypeName<'s> {
    /// Parses a fully qualified type name, as `core::any::type_name` writes
    /// it, into a tree that borrows from `s`.
    ///
    /// The empty string gives `TypeName::Empty`. A text that is not a
    /// qualified type name gives `ParseError::Malformed`; one that names a raw
    /// pointer type gives `ParseError::Unsupported`.
    pub fn parse(s: &'s str) -> (r: Result<TypeName<'s>, ParseError>)
        ensures
            r matches Ok(t) ==> describes(s@, t@) && !has_pointer(t@),
            r matches Err(ParseError::Unsupported) ==> exists|t: TypeNameView|
                describes(s@, t) && has_pointer(t),
            r matches Err(ParseError::Malformed) <==> !exists|t: TypeNameView| describes(s@, t),
            forall|t: TypeNameView| #[trigger]
                describes(s@, t) ==> match r {
                    Ok(u) => u@ == t,
                    Err(ParseError::Unsupported) => has_pointer(t),
                    Err(ParseError::Malformed) => false,
                },
    {
        let len = s.unicode_len();
        if len == 0 {
            assert(describes(s@, TypeNameView::Empty));
            return Ok(TypeName::Empty);
        }
        proof {
            assert forall|t: TypeNameView| #[trigger] describes(s@, t) implies s.is_ascii() && fits(
                s@,
                0,
                t,
            ) by {
                lemma_text_ascii(t);
                assert(s@.subrange(0, s@.len() as int) =~= s@);
            }
        }
        if !s.is_ascii() {
            return Err(ParseError::Malformed);
        }
        match parse_type(s, len, 0) {
            Some((t, end)) => {
                if end != len {
                    proof {
                        assert forall|t2: TypeNameView| #[trigger] describes(s@, t2) implies false by {
                            assert(fits(s@, 0, t2));
                        }
                    }
                    return Err(ParseError::Malformed);
                }
                assert(s@.subrange(0, len as int) =~= s@);
                proof {
                    assert forall|t2: TypeNameView| #[trigger] describes(s@, t2) implies t@ == t2 by {
                        assert(fits(s@, 0, t2));
                    }
                    assert(describes(s@, t@));
                }
                if contains_pointer(&t) {
                    Err(ParseError::Unsupported)
                } else {
                    Ok(t)
                }
            },
            None => {
                proof {
                    assert forall|t2: TypeNameView| #[trigger] describes(s@, t2) implies false by {
                        assert(fits(s@, 0, t2));
                    }
                }
                Err(ParseError::Malformed)
            },
        }
    }
}

} // verus!
