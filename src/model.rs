use vstd::prelude::*;

use crate::type_params_fmt_opts::TypeParamsFmtOpts;

verus! {

/// The mathematical value of a type name tree: every piece of text is a
/// sequence of characters.
pub enum TypeNameView {
    Empty,
    Array { elem: Box<TypeNameView>, len: Seq<char> },
    Never,
    Pointer { const_or_mut: Seq<char>, elem: Box<TypeNameView> },
    Reference { mutable: bool, spaced: bool, elem: Box<TypeNameView> },
    Slice { elem: Box<TypeNameView> },
    Struct { module_segments: Seq<Seq<char>>, simple_name: Seq<char>, type_params: Seq<TypeNameView> },
    Tuple { elems: Seq<TypeNameView>, trailing_comma: bool },
    Trait { module_segments: Seq<Seq<char>>, simple_name: Seq<char>, type_params: Seq<TypeNameView> },
    Unit,
}

/// The module separator `"::"`.
pub open spec fn colons() -> Seq<char> {
    seq![':', ':']
}

/// The elision marker `".."`.
pub open spec fn dots() -> Seq<char> {
    seq!['.', '.']
}

/// The list separator `", "`.
pub open spec fn comma_space() -> Seq<char> {
    seq![',', ' ']
}

/// Module segments joined by `"::"`.
pub open spec fn join_path(segs: Seq<Seq<char>>) -> Seq<char>
    decreases segs.len(),
{
    if segs.len() == 0 {
        seq![]
    } else if segs.len() == 1 {
        segs[0]
    } else {
        join_path(segs.drop_last()) + colons() + segs.last()
    }
}

/// What stands before a simple name when at most `m` leading and `n` trailing
/// segments of `path` are kept: nothing when no segment is shown, the whole
/// path when `m + n` covers it, and otherwise the kept segments around `".."`;
/// in the last two cases a `"::"` follows.
pub open spec fn elided_path(path: Seq<Seq<char>>, m: nat, n: nat) -> Seq<char> {
    let len = path.len();
    if len == 0 || m + n == 0 {
        seq![]
    } else if m + n >= len {
        join_path(path) + colons()
    } else {
        (if m > 0 {
            join_path(path.take(m as int)) + colons()
        } else {
            seq![]
        }) + dots() + (if n > 0 {
            colons() + join_path(path.skip(len - n))
        } else {
            seq![]
        }) + colons()
    }
}

/// Whether a module path lies in the standard library.
pub open spec fn is_std_path(path: Seq<Seq<char>>) -> bool {
    &&& path.len() > 0
    &&& {
        ||| path[0] == seq!['s', 't', 'd']
        ||| path[0] == seq!['c', 'o', 'r', 'e']
        ||| path[0] == seq!['a', 'l', 'l', 'o', 'c']
    }
}

/// Whether a nominal type with this module path shows its type parameters.
pub open spec fn shows_params(path: Seq<Seq<char>>, opts: TypeParamsFmtOpts) -> bool {
    opts is All || is_std_path(path)
}

/// `"<" + list + ">"` for a non-empty parameter list, nothing otherwise.
pub open spec fn angled(count: nat, list: Seq<char>) -> Seq<char> {
    if count == 0 {
        seq![]
    } else {
        seq!['<'] + list + seq!['>']
    }
}

/// `"(" + list + ")"`, with a `","` before the `")"` for exactly one element.
pub open spec fn parenthesized(count: nat, list: Seq<char>) -> Seq<char> {
    if count == 1 {
        seq!['('] + list + seq![',', ')']
    } else {
        seq!['('] + list + seq![')']
    }
}

/// The rendering of a nominal type (a struct, or the inside of a trait object).
pub open spec fn render_nominal(
    path: Seq<Seq<char>>,
    name: Seq<char>,
    params: Seq<TypeNameView>,
    m: nat,
    n: nat,
    opts: TypeParamsFmtOpts,
) -> Seq<char>
    decreases params, 1nat,
{
    elided_path(path, m, n) + name + if shows_params(path, opts) {
        angled(params.len(), render_list(params, m, n, opts))
    } else {
        seq![]
    }
}

/// The text of a type name, keeping at most `m` leading and `n` trailing module
/// segments of every nominal type in it, at every depth.
pub open spec fn render(t: TypeNameView, m: nat, n: nat, opts: TypeParamsFmtOpts) -> Seq<char>
    decreases t, 0nat,
{
    match t {
        TypeNameView::Empty => seq![],
        TypeNameView::Array { elem, len } => seq!['['] + render(*elem, m, n, opts) + seq![
            ';',
            ' ',
        ] + len + seq![']'],
        TypeNameView::Never => seq!['!'],
        TypeNameView::Pointer { const_or_mut, elem } => seq!['*', ' '] + const_or_mut + seq![' ']
            + render(*elem, m, n, opts),
        TypeNameView::Reference { mutable, elem, .. } => seq!['&'] + (if mutable {
            seq!['m', 'u', 't', ' ']
        } else {
            seq![]
        }) + render(*elem, m, n, opts),
        TypeNameView::Slice { elem } => seq!['['] + render(*elem, m, n, opts) + seq![']'],
        TypeNameView::Struct { module_segments, simple_name, type_params } => render_nominal(
            module_segments,
            simple_name,
            type_params,
            m,
            n,
            opts,
        ),
        TypeNameView::Tuple { elems, .. } => parenthesized(
            elems.len(),
            render_list(elems, m, n, opts),
        ),
        TypeNameView::Trait { module_segments, simple_name, type_params } => seq!['d', 'y', 'n', ' ']
            + render_nominal(module_segments, simple_name, type_params, m, n, opts),
        TypeNameView::Unit => seq!['(', ')'],
    }
}

/// The renderings of `ts`, separated by `", "`.
pub open spec fn render_list(
    ts: Seq<TypeNameView>,
    m: nat,
    n: nat,
    opts: TypeParamsFmtOpts,
) -> Seq<char>
    decreases ts, 0nat,
{
    if ts.len() == 0 {
        seq![]
    } else if ts.len() == 1 {
        render(ts[0], m, n, opts)
    } else {
        render_list(ts.drop_last(), m, n, opts) + comma_space() + render(ts.last(), m, n, opts)
    }
}

} // verus!
