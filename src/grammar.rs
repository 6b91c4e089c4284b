use vstd::prelude::*;

use vstd::utf8::is_ascii_chars;

use crate::model::{angled, colons, comma_space, join_path, parenthesized, TypeNameView};

verus! {

/// `'a'..='z'`.
pub open spec fn is_lower(c: char) -> bool {
    'a' <= c <= 'z'
}

/// `'A'..='Z'`.
pub open spec fn is_upper(c: char) -> bool {
    'A' <= c <= 'Z'
}

/// `'0'..='9'`.
pub open spec fn is_digit(c: char) -> bool {
    '0' <= c <= '9'
}

/// A character that may continue a module segment.
pub open spec fn is_module_char(c: char) -> bool {
    is_lower(c) || is_digit(c) || c == '_'
}

/// A character that may stand in an identifier.
pub open spec fn is_ident_char(c: char) -> bool {
    is_module_char(c) || is_upper(c)
}

/// A module segment: a lowercase letter, then lowercase letters, digits and
/// underscores.
pub open spec fn is_module_segment(w: Seq<char>) -> bool {
    &&& w.len() > 0
    &&& is_lower(w[0])
    &&& forall|i: int| 0 <= i < w.len() ==> is_module_char(#[trigger] w[i])
}

/// A simple type name: an uppercase letter, then letters, digits and
/// underscores.
pub open spec fn is_simple_name(w: Seq<char>) -> bool {
    &&& w.len() > 0
    &&& is_upper(w[0])
    &&& forall|i: int| 0 <= i < w.len() ==> is_ident_char(#[trigger] w[i])
}

/// Every segment of the path is a module segment.
pub open spec fn is_module_path(path: Seq<Seq<char>>) -> bool {
    forall|i: int| 0 <= i < path.len() ==> is_module_segment(#[trigger] path[i])
}

/// The names of the primitive types.
pub open spec fn is_primitive(w: Seq<char>) -> bool {
    ||| w == seq!['b', 'o', 'o', 'l']
    ||| w == seq!['c', 'h', 'a', 'r']
    ||| w == seq!['f', '3', '2']
    ||| w == seq!['f', '6', '4']
    ||| w == seq!['i', '1', '2', '8']
    ||| w == seq!['i', '1', '6']
    ||| w == seq!['i', '3', '2']
    ||| w == seq!['i', '6', '4']
    ||| w == seq!['i', '8']
    ||| w == seq!['i', 's', 'i', 'z', 'e']
    ||| w == seq!['s', 't', 'r']
    ||| w == seq!['u', '1', '2', '8']
    ||| w == seq!['u', '1', '6']
    ||| w == seq!['u', '3', '2']
    ||| w == seq!['u', '6', '4']
    ||| w == seq!['u', '8']
    ||| w == seq!['u', 's', 'i', 'z', 'e']
}

/// The text of an array length: ASCII characters other than `']'`.
pub open spec fn is_length_text(w: Seq<char>) -> bool {
    &&& is_ascii_chars(w)
    &&& forall|i: int| 0 <= i < w.len() ==> #[trigger] w[i] != ']'
}

/// `"const"` or `"mut"`.
pub open spec fn is_pointer_kind(w: Seq<char>) -> bool {
    w == seq!['c', 'o', 'n', 's', 't'] || w == seq!['m', 'u', 't']
}

/// A module path written out in full, with the `"::"` that precedes the simple
/// name; nothing for an empty path.
pub open spec fn full_path(path: Seq<Seq<char>>) -> Seq<char> {
    if path.len() == 0 {
        seq![]
    } else {
        join_path(path) + colons()
    }
}

/// Whether a tree is one that a qualified type name describes: every name has
/// its shape, a primitive stands alone, a module path never starts with a
/// primitive's name, tuples are not empty, only a tuple of two or more
/// elements is marked as written with a trailing `,`, and only an immutable
/// reference as written with a space after `&`.
pub open spec fn wf(t: TypeNameView) -> bool
    decreases t, 0nat,
{
    match t {
        TypeNameView::Empty => false,
        TypeNameView::Array { elem, len } => wf(*elem) && is_length_text(len),
        TypeNameView::Never => true,
        TypeNameView::Pointer { const_or_mut, elem } => is_pointer_kind(const_or_mut) && wf(*elem),
        TypeNameView::Reference { mutable, spaced, elem } => !(mutable && spaced) && wf(*elem),
        TypeNameView::Slice { elem } => wf(*elem),
        TypeNameView::Struct { module_segments, simple_name, type_params } => {
            ||| is_primitive(simple_name) && module_segments.len() == 0 && type_params.len() == 0
            ||| {
                &&& is_module_path(module_segments)
                &&& module_segments.len() > 0 ==> !is_primitive(module_segments[0])
                &&& is_simple_name(simple_name)
                &&& wf_list(type_params)
            }
        },
        TypeNameView::Tuple { elems, trailing_comma } => {
            &&& elems.len() > 0
            &&& wf_list(elems)
            &&& trailing_comma ==> elems.len() > 1
        },
        TypeNameView::Trait { module_segments, simple_name, type_params } => {
            &&& is_module_path(module_segments)
            &&& is_simple_name(simple_name)
            &&& wf_list(type_params)
        },
        TypeNameView::Unit => true,
    }
}

/// Every tree of the sequence is well formed.
pub open spec fn wf_list(ts: Seq<TypeNameView>) -> bool
    decreases ts, 0nat,
{
    if ts.len() == 0 {
        true
    } else {
        wf_list(ts.drop_last()) && wf(ts.last())
    }
}

/// The fully qualified text of a tree, as the compiler writes type names; a
/// reference marked as spaced has a space after `&`, and a tuple marked with
/// a trailing comma a `,` before its `)`.
pub open spec fn full_text(t: TypeNameView) -> Seq<char>
    decreases t, 0nat,
{
    match t {
        TypeNameView::Empty => seq![],
        TypeNameView::Array { elem, len } => seq!['['] + full_text(*elem) + seq![';', ' '] + len
            + seq![']'],
        TypeNameView::Never => seq!['!'],
        TypeNameView::Pointer { const_or_mut, elem } => seq!['*'] + const_or_mut + seq![' ']
            + full_text(*elem),
        TypeNameView::Reference { mutable, spaced, elem } => seq!['&'] + (if mutable {
            seq!['m', 'u', 't', ' ']
        } else if spaced {
            seq![' ']
        } else {
            seq![]
        }) + full_text(*elem),
        TypeNameView::Slice { elem } => seq!['['] + full_text(*elem) + seq![']'],
        TypeNameView::Struct { module_segments, simple_name, type_params } => full_path(
            module_segments,
        ) + simple_name + angled(type_params.len(), full_text_list(type_params)),
        TypeNameView::Tuple { elems, trailing_comma } => if trailing_comma {
            seq!['('] + full_text_list(elems) + seq![',', ')']
        } else {
            parenthesized(elems.len(), full_text_list(elems))
        },
        TypeNameView::Trait { module_segments, simple_name, type_params } => seq!['d', 'y', 'n', ' ']
            + full_path(module_segments) + simple_name + angled(
            type_params.len(),
            full_text_list(type_params),
        ),
        TypeNameView::Unit => seq!['(', ')'],
    }
}

/// The fully qualified texts of `ts`, separated by `", "`.
pub open spec fn full_text_list(ts: Seq<TypeNameView>) -> Seq<char>
    decreases ts, 0nat,
{
    if ts.len() == 0 {
        seq![]
    } else if ts.len() == 1 {
        full_text(ts[0])
    } else {
        full_text_list(ts.drop_last()) + comma_space() + full_text(ts.last())
    }
}

/// Whether a raw pointer occurs anywhere in the tree.
pub open spec fn has_pointer(t: TypeNameView) -> bool
    decreases t, 0nat,
{
    match t {
        TypeNameView::Array { elem, .. } => has_pointer(*elem),
        TypeNameView::Pointer { .. } => true,
        TypeNameView::Reference { elem, .. } => has_pointer(*elem),
        TypeNameView::Slice { elem } => has_pointer(*elem),
        TypeNameView::Struct { type_params, .. } => list_has_pointer(type_params),
        TypeNameView::Tuple { elems, .. } => list_has_pointer(elems),
        TypeNameView::Trait { type_params, .. } => list_has_pointer(type_params),
        _ => false,
    }
}

/// Whether a raw pointer occurs in any tree of the sequence.
pub open spec fn list_has_pointer(ts: Seq<TypeNameView>) -> bool
    decreases ts, 0nat,
{
    if ts.len() == 0 {
        false
    } else {
        list_has_pointer(ts.drop_last()) || has_pointer(ts.last())
    }
}

/// Whether `t` is what the text `s` describes: the empty tree for the empty
/// text, and otherwise a well-formed tree whose fully qualified text is `s`.
pub open spec fn describes(s: Seq<char>, t: TypeNameView) -> bool {
    if s.len() == 0 {
        t is Empty
    } else {
        wf(t) && full_text(t) == s
    }
}

/// A character that may follow a type inside a qualified type name.
pub open spec fn is_follow_char(c: char) -> bool {
    c == ',' || c == '>' || c == ')' || c == ']' || c == ';'
}

/// Position `e` of `s` is the end of the text or holds a character that may
/// follow a type.
pub open spec fn ends_type(s: Seq<char>, e: int) -> bool {
    e == s.len() || (0 <= e < s.len() && is_follow_char(s[e]))
}

/// Position `e` of `s` holds what may follow a list of types: `'>'`, `')'`
/// or `",)"`.
pub open spec fn ends_list(s: Seq<char>, e: int) -> bool {
    &&& 0 <= e < s.len()
    &&& {
        ||| s[e] == '>'
        ||| s[e] == ')'
        ||| (s[e] == ',' && e + 1 < s.len() && s[e + 1] == ')')
    }
}

/// The fully qualified text of `t` stands in `s` at `pos`, followed by the end
/// of the text or by a character that may follow a type.
pub open spec fn fits(s: Seq<char>, pos: int, t: TypeNameView) -> bool {
    let e = pos + full_text(t).len();
    &&& 0 <= pos
    &&& e <= s.len()
    &&& s.subrange(pos, e) == full_text(t)
    &&& ends_type(s, e)
}

/// The texts of the non-empty list `ts` stand in `s` at `pos`, followed by
/// what may follow a list.
pub open spec fn list_fits(s: Seq<char>, pos: int, ts: Seq<TypeNameView>) -> bool {
    let e = pos + full_text_list(ts).len();
    &&& 0 <= pos
    &&& ts.len() > 0
    &&& wf_list(ts)
    &&& e <= s.len()
    &&& s.subrange(pos, e) == full_text_list(ts)
    &&& ends_list(s, e)
}

/// The text of a nominal type with this path, name and parameters, whose path
/// and name have their shapes, stands in `s` at `pos`, followed by the end of
/// the text or by a character that may follow a type.
pub open spec fn nominal_fits(
    s: Seq<char>,
    pos: int,
    path: Seq<Seq<char>>,
    name: Seq<char>,
    params: Seq<TypeNameView>,
) -> bool {
    let text = full_path(path) + name + angled(params.len(), full_text_list(params));
    &&& 0 <= pos
    &&& is_module_path(path)
    &&& is_simple_name(name)
    &&& wf_list(params)
    &&& pos + text.len() <= s.len()
    &&& s.subrange(pos, pos + text.len()) == text
    &&& ends_type(s, pos + text.len())
}

/// `wf_list` holds of a sequence exactly when `wf` holds of each element.
pub proof fn lemma_wf_list(ts: Seq<TypeNameView>)
    ensures
        wf_list(ts) <==> forall|i: int| 0 <= i < ts.len() ==> #[trigger] wf(ts[i]),
    decreases ts.len(),
{
    if ts.len() > 0 {
        let front = ts.drop_last();
        lemma_wf_list(front);
        assert(ts.last() == ts[ts.len() - 1]);
        if wf_list(ts) {
            assert forall|i: int| 0 <= i < ts.len() implies #[trigger] wf(ts[i]) by {
                if i < ts.len() - 1 {
                    assert(front[i] == ts[i]);
                }
            }
        }
        if forall|i: int| 0 <= i < ts.len() ==> #[trigger] wf(ts[i]) {
            assert forall|i: int| 0 <= i < front.len() implies #[trigger] wf(front[i]) by {
                assert(front[i] == ts[i]);
                assert(wf(ts[i]));
            }
            assert(wf(ts[ts.len() - 1]));
        }
    }
}

/// The text of a list that ends after its element `k` extends the text of the
/// list that ends before it.
pub proof fn lemma_list_take_step(ts: Seq<TypeNameView>, k: int)
    requires
        0 <= k < ts.len(),
    ensures
        full_text_list(ts.take(k + 1)) == if k == 0 {
            full_text(ts[0])
        } else {
            full_text_list(ts.take(k)) + comma_space() + full_text(ts[k])
        },
{
    assert(ts.take(k + 1).drop_last() =~= ts.take(k));
}

/// The text of the first `j` elements of a list begins the text of the list;
/// where elements follow, `", "` comes next.
pub proof fn lemma_list_prefix(ts: Seq<TypeNameView>, j: int)
    requires
        1 <= j <= ts.len(),
    ensures
        full_text_list(ts.take(j)).len() <= full_text_list(ts).len(),
        full_text_list(ts).take(full_text_list(ts.take(j)).len() as int) == full_text_list(
            ts.take(j),
        ),
        j < ts.len() ==> {
            let l = full_text_list(ts.take(j)).len() as int;
            &&& l + 2 <= full_text_list(ts).len()
            &&& full_text_list(ts)[l] == ','
            &&& full_text_list(ts)[l + 1] == ' '
        },
    decreases ts.len(),
{
    if j == ts.len() {
        assert(ts.take(j) =~= ts);
        assert(full_text_list(ts).take(full_text_list(ts).len() as int) =~= full_text_list(ts));
    } else {
        let ts2 = ts.drop_last();
        assert(ts2.take(j) =~= ts.take(j));
        lemma_list_prefix(ts2, j);
        let whole = full_text_list(ts);
        let front = full_text_list(ts2);
        assert(whole == front + comma_space() + full_text(ts.last()));
        let l = full_text_list(ts.take(j)).len() as int;
        assert(whole.take(l) =~= front.take(l));
        if j < ts2.len() {
            assert(whole[l] == front[l]);
            assert(whole[l + 1] == front[l + 1]);
        } else {
            assert(ts2.take(j) =~= ts2);
        }
    }
}

/// The text of the first `j` segments of a path begins the text of the path;
/// where segments follow, the next one and a `"::"` come next.
pub proof fn lemma_path_prefix(path: Seq<Seq<char>>, j: int)
    requires
        0 <= j <= path.len(),
    ensures
        full_path(path.take(j)).len() <= full_path(path).len(),
        full_path(path).take(full_path(path.take(j)).len() as int) == full_path(path.take(j)),
        j < path.len() ==> {
            let l = full_path(path.take(j)).len() as int;
            let w = path[j];
            &&& l + w.len() + 2 <= full_path(path).len()
            &&& full_path(path).subrange(l, l + w.len() as int + 2) == w + colons()
        },
    decreases path.len(),
{
    if j == path.len() {
        assert(path.take(j) =~= path);
        assert(full_path(path).take(full_path(path).len() as int) =~= full_path(path));
    } else {
        let shorter = path.drop_last();
        assert(shorter.take(j) =~= path.take(j));
        lemma_path_prefix(shorter, j);
        assert(shorter.push(path.last()) =~= path);
        lemma_full_path_push(shorter, path.last());
        let whole = full_path(path);
        let front = full_path(shorter);
        let l = full_path(path.take(j)).len() as int;
        assert(whole.take(l) =~= front.take(l));
        if j < shorter.len() {
            assert(whole.subrange(l, l + path[j].len() as int + 2) =~= front.subrange(
                l,
                l + path[j].len() as int + 2,
            ));
        } else {
            assert(shorter.take(j) =~= shorter);
            assert(whole.subrange(l, l + path[j].len() as int + 2) =~= path[j] + colons());
        }
    }
}

/// Appending a segment to a path appends it, and a `"::"`, to the path's text.
pub proof fn lemma_full_path_push(path: Seq<Seq<char>>, w: Seq<char>)
    ensures
        full_path(path.push(w)) == full_path(path) + w + colons(),
{
    if path.len() > 0 {
        assert(path.push(w).drop_last() =~= path);
    } else {
        assert(path.push(w) =~= seq![w]);
    }
}

/// The first character of a well-formed tree's text tells its kind.
pub proof fn lemma_text_head(t: TypeNameView)
    requires
        wf(t),
    ensures
        full_text(t).len() > 0,
        (t is Array || t is Slice) <==> full_text(t)[0] == '[',
        t is Pointer <==> full_text(t)[0] == '*',
        t is Never <==> full_text(t)[0] == '!',
        t is Reference <==> full_text(t)[0] == '&',
        (t is Unit || t is Tuple) <==> full_text(t)[0] == '(',
        t is Trait ==> full_text(t).len() >= 4 && full_text(t).take(4) == seq!['d', 'y', 'n', ' '],
        t is Struct ==> is_ident_char(full_text(t)[0]),
{
    match t {
        TypeNameView::Struct { module_segments, simple_name, type_params } => {
            if module_segments.len() > 0 {
                lemma_path_prefix(module_segments, 0);
                assert(module_segments.take(0) =~= Seq::<Seq<char>>::empty());
                assert(is_module_segment(module_segments[0]));
                assert(full_text(t)[0] == full_path(module_segments)[0]);
                assert(full_path(module_segments).subrange(
                    0,
                    module_segments[0].len() as int + 2,
                )[0] == module_segments[0][0]);
            } else {
                assert(full_text(t)[0] == simple_name[0]);
            }
        },
        TypeNameView::Trait { .. } => {
            assert(full_text(t).take(4) =~= seq!['d', 'y', 'n', ' ']);
        },
        TypeNameView::Tuple { .. } => {},
        _ => {},
    }
}

/// Two ASCII texts make an ASCII text.
pub proof fn lemma_ascii_concat(a: Seq<char>, b: Seq<char>)
    requires
        is_ascii_chars(a),
        is_ascii_chars(b),
    ensures
        is_ascii_chars(a + b),
{
    assert forall|i: int| 0 <= i < (a + b).len() implies '\0' <= #[trigger] (a + b)[i] <= '\u{7f}' by {
        if i < a.len() {
            assert((a + b)[i] == a[i]);
        } else {
            assert((a + b)[i] == b[i - a.len()]);
        }
    }
}

/// The text of a module path is ASCII.
pub proof fn lemma_path_ascii(path: Seq<Seq<char>>)
    requires
        is_module_path(path),
    ensures
        is_ascii_chars(join_path(path)),
        is_ascii_chars(full_path(path)),
    decreases path.len(),
{
    assert(is_ascii_chars(colons()));
    if path.len() > 0 {
        let front = path.drop_last();
        assert(is_module_path(front)) by {
            assert forall|i: int| 0 <= i < front.len() implies is_module_segment(#[trigger] front[i]) by {
                assert(front[i] == path[i]);
            }
        }
        lemma_path_ascii(front);
        let w = path.last();
        assert(is_module_segment(path[path.len() - 1]));
        assert(is_ascii_chars(w));
        if path.len() > 1 {
            lemma_ascii_concat(join_path(front), colons());
            lemma_ascii_concat(join_path(front) + colons(), w);
        }
        lemma_ascii_concat(join_path(path), colons());
    }
}

/// The fully qualified text of a well-formed tree is ASCII.
pub proof fn lemma_text_ascii(t: TypeNameView)
    requires
        wf(t),
    ensures
        is_ascii_chars(full_text(t)),
    decreases t, 0nat,
{
    let a1 = seq!['['];
    let a2 = seq![']'];
    let a3 = seq![';', ' '];
    let a4 = seq!['*'];
    let a5 = seq![' '];
    let a6 = seq!['&'];
    let a7 = seq!['m', 'u', 't', ' '];
    let a8 = seq!['d', 'y', 'n', ' '];
    let a9 = seq!['<'];
    let a10 = seq!['>'];
    let a11 = seq!['('];
    let a12 = seq![')'];
    let a13 = seq![',', ')'];
    assert(is_ascii_chars(a1) && is_ascii_chars(a2) && is_ascii_chars(a3) && is_ascii_chars(a4));
    assert(is_ascii_chars(a5) && is_ascii_chars(a6) && is_ascii_chars(a7) && is_ascii_chars(a8));
    assert(is_ascii_chars(a9) && is_ascii_chars(a10) && is_ascii_chars(a11) && is_ascii_chars(a12));
    assert(is_ascii_chars(a13) && is_ascii_chars(Seq::<char>::empty()));
    match t {
        TypeNameView::Empty => {},
        TypeNameView::Array { elem, len } => {
            lemma_text_ascii(*elem);
            let e = full_text(*elem);
            lemma_ascii_concat(a1, e);
            lemma_ascii_concat(a1 + e, a3);
            assert(is_length_text(len));
            lemma_ascii_concat(a1 + e + a3, len);
            lemma_ascii_concat(a1 + e + a3 + len, a2);
        },
        TypeNameView::Never => {
            assert(is_ascii_chars(seq!['!']));
        },
        TypeNameView::Pointer { const_or_mut, elem } => {
            lemma_text_ascii(*elem);
            let e = full_text(*elem);
            assert(is_ascii_chars(const_or_mut));
            lemma_ascii_concat(a4, const_or_mut);
            lemma_ascii_concat(a4 + const_or_mut, a5);
            lemma_ascii_concat(a4 + const_or_mut + a5, e);
        },
        TypeNameView::Reference { mutable, spaced, elem } => {
            lemma_text_ascii(*elem);
            let e = full_text(*elem);
            let m = if mutable {
                a7
            } else if spaced {
                a5
            } else {
                Seq::<char>::empty()
            };
            lemma_ascii_concat(a6, m);
            lemma_ascii_concat(a6 + m, e);
        },
        TypeNameView::Slice { elem } => {
            lemma_text_ascii(*elem);
            let e = full_text(*elem);
            lemma_ascii_concat(a1, e);
            lemma_ascii_concat(a1 + e, a2);
        },
        TypeNameView::Struct { module_segments, simple_name, type_params } => {
            let tail = angled(type_params.len(), full_text_list(type_params));
            if is_primitive(simple_name) && module_segments.len() == 0 && type_params.len() == 0 {
                assert(is_ascii_chars(simple_name));
                assert(full_text(t) =~= simple_name);
            } else {
                lemma_path_ascii(module_segments);
                lemma_list_ascii(type_params);
                assert(is_ascii_chars(simple_name));
                if type_params.len() > 0 {
                    lemma_ascii_concat(a9, full_text_list(type_params));
                    lemma_ascii_concat(a9 + full_text_list(type_params), a10);
                }
                lemma_ascii_concat(full_path(module_segments), simple_name);
                lemma_ascii_concat(full_path(module_segments) + simple_name, tail);
            }
        },
        TypeNameView::Tuple { elems, .. } => {
            lemma_list_ascii(elems);
            let l = full_text_list(elems);
            lemma_ascii_concat(a11, l);
            lemma_ascii_concat(a11 + l, a12);
            lemma_ascii_concat(a11 + l, a13);
        },
        TypeNameView::Trait { module_segments, simple_name, type_params } => {
            let tail = angled(type_params.len(), full_text_list(type_params));
            lemma_path_ascii(module_segments);
            lemma_list_ascii(type_params);
            assert(is_ascii_chars(simple_name));
            if type_params.len() > 0 {
                lemma_ascii_concat(a9, full_text_list(type_params));
                lemma_ascii_concat(a9 + full_text_list(type_params), a10);
            }
            lemma_ascii_concat(a8, full_path(module_segments));
            lemma_ascii_concat(a8 + full_path(module_segments), simple_name);
            lemma_ascii_concat(a8 + full_path(module_segments) + simple_name, tail);
        },
        TypeNameView::Unit => {},
    }
}

/// The fully qualified text of a list of well-formed trees is ASCII.
pub proof fn lemma_list_ascii(ts: Seq<TypeNameView>)
    requires
        wf_list(ts),
    ensures
        is_ascii_chars(full_text_list(ts)),
    decreases ts, 0nat,
{
    if ts.len() == 1 {
        lemma_text_ascii(ts[0]);
    } else if ts.len() > 1 {
        lemma_list_ascii(ts.drop_last());
        lemma_text_ascii(ts.last());
        assert(is_ascii_chars(comma_space()));
        lemma_ascii_concat(full_text_list(ts.drop_last()), comma_space());
        lemma_ascii_concat(full_text_list(ts.drop_last()) + comma_space(), full_text(ts.last()));
    } else {
        assert(is_ascii_chars(Seq::<char>::empty()));
    }
}

} // verus!
