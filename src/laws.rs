use vstd::prelude::*;

use crate::grammar::{
    describes, full_path, full_text, full_text_list, has_pointer, lemma_path_prefix,
    list_has_pointer,
};
use crate::model::{
    angled, colons, dots, elided_path, join_path, parenthesized, render, render_list,
    render_nominal, TypeNameView,
};
use crate::type_params_fmt_opts::TypeParamsFmtOpts;

verus! {

/// The tree with every module path removed.
pub open spec fn strip_paths(t: TypeNameView) -> TypeNameView
    decreases t, 0nat,
{
    match t {
        TypeNameView::Array { elem, len } => TypeNameView::Array {
            elem: Box::new(strip_paths(*elem)),
            len,
        },
        TypeNameView::Pointer { const_or_mut, elem } => TypeNameView::Pointer {
            const_or_mut,
            elem: Box::new(strip_paths(*elem)),
        },
        TypeNameView::Reference { mutable, elem, .. } => TypeNameView::Reference {
            mutable,
            spaced: false,
            elem: Box::new(strip_paths(*elem)),
        },
        TypeNameView::Slice { elem } => TypeNameView::Slice { elem: Box::new(strip_paths(*elem)) },
        TypeNameView::Struct { simple_name, type_params, .. } => TypeNameView::Struct {
            module_segments: seq![],
            simple_name,
            type_params: strip_paths_list(type_params),
        },
        TypeNameView::Tuple { elems, .. } => TypeNameView::Tuple {
            elems: strip_paths_list(elems),
            trailing_comma: false,
        },
        TypeNameView::Trait { simple_name, type_params, .. } => TypeNameView::Trait {
            module_segments: seq![],
            simple_name,
            type_params: strip_paths_list(type_params),
        },
        _ => t,
    }
}

/// Each tree of the sequence with every module path removed.
pub open spec fn strip_paths_list(ts: Seq<TypeNameView>) -> Seq<TypeNameView>
    decreases ts, 0nat,
{
    if ts.len() == 0 {
        seq![]
    } else {
        strip_paths_list(ts.drop_last()).push(strip_paths(ts.last()))
    }
}

/// Whether the tree is marked nowhere as written with a space after `&` or a
/// trailing `,` in a tuple of two or more elements: its text is the one that
/// rendering writes.
pub open spec fn written_plainly(t: TypeNameView) -> bool
    decreases t, 0nat,
{
    match t {
        TypeNameView::Array { elem, .. } => written_plainly(*elem),
        TypeNameView::Pointer { elem, .. } => written_plainly(*elem),
        TypeNameView::Reference { spaced, elem, .. } => !spaced && written_plainly(*elem),
        TypeNameView::Slice { elem } => written_plainly(*elem),
        TypeNameView::Struct { type_params, .. } => written_plainly_list(type_params),
        TypeNameView::Tuple { elems, trailing_comma } => !trailing_comma && written_plainly_list(
            elems,
        ),
        TypeNameView::Trait { type_params, .. } => written_plainly_list(type_params),
        _ => true,
    }
}

/// Every tree of the sequence is written plainly.
pub open spec fn written_plainly_list(ts: Seq<TypeNameView>) -> bool
    decreases ts, 0nat,
{
    if ts.len() == 0 {
        true
    } else {
        written_plainly_list(ts.drop_last()) && written_plainly(ts.last())
    }
}

/// The length of the longest module path in the tree.
pub open spec fn max_depth(t: TypeNameView) -> nat
    decreases t, 0nat,
{
    match t {
        TypeNameView::Array { elem, .. } => max_depth(*elem),
        TypeNameView::Pointer { elem, .. } => max_depth(*elem),
        TypeNameView::Reference { elem, .. } => max_depth(*elem),
        TypeNameView::Slice { elem } => max_depth(*elem),
        TypeNameView::Struct { module_segments, type_params, .. } => {
            let d = max_depth_list(type_params);
            if module_segments.len() > d {
                module_segments.len()
            } else {
                d
            }
        },
        TypeNameView::Tuple { elems, .. } => max_depth_list(elems),
        TypeNameView::Trait { module_segments, type_params, .. } => {
            let d = max_depth_list(type_params);
            if module_segments.len() > d {
                module_segments.len()
            } else {
                d
            }
        },
        _ => 0,
    }
}

/// The length of the longest module path in any tree of the sequence.
pub open spec fn max_depth_list(ts: Seq<TypeNameView>) -> nat
    decreases ts, 0nat,
{
    if ts.len() == 0 {
        0
    } else {
        let a = max_depth_list(ts.drop_last());
        let b = max_depth(ts.last());
        if a > b {
            a
        } else {
            b
        }
    }
}

/// Whether segment `i` of a path of `len` segments is written when at most
/// `m` leading and `n` trailing segments are kept.
pub open spec fn shown(len: nat, m: nat, n: nat, i: int) -> bool {
    &&& 0 <= i < len
    &&& m + n >= len || i < m || i >= len - n
}

/// How many segments of a path of `len` segments are left out, replaced by
/// `".."` or dropped, when at most `m` leading and `n` trailing segments are
/// kept.
pub open spec fn hidden_count(len: nat, m: nat, n: nat) -> nat {
    if m + n >= len {
        0
    } else {
        (len - m - n) as nat
    }
}

/// With no segment kept, a path leaves nothing before the simple name.
proof fn lemma_elided_path_zero(path: Seq<Seq<char>>)
    ensures
        elided_path(path, 0, 0) == full_path(Seq::<Seq<char>>::empty()),
{
}

/// With `m + n` covering the path, the whole path is written.
proof fn lemma_elided_path_full(path: Seq<Seq<char>>, m: nat, n: nat)
    requires
        m + n >= path.len(),
    ensures
        elided_path(path, m, n) == full_path(path),
{
}

/// `strip_paths_list` keeps the length and strips each element.
proof fn lemma_strip_paths_list(ts: Seq<TypeNameView>)
    ensures
        strip_paths_list(ts).len() == ts.len(),
        forall|i: int|
            0 <= i < ts.len() ==> #[trigger] strip_paths_list(ts)[i] == strip_paths(ts[i]),
    decreases ts.len(),
{
    if ts.len() > 0 {
        lemma_strip_paths_list(ts.drop_last());
    }
}

/// Rendering with no segment kept writes the text of the stripped tree.
proof fn lemma_render_zero(t: TypeNameView)
    requires
        !has_pointer(t),
    ensures
        render(t, 0, 0, TypeParamsFmtOpts::All) == full_text(strip_paths(t)),
    decreases t, 0nat,
{
    match t {
        TypeNameView::Array { elem, len } => {
            lemma_render_zero(*elem);
            assert(strip_paths(t) == TypeNameView::Array { elem: Box::new(strip_paths(*elem)), len });
            let text = seq!['['] + full_text(strip_paths(*elem)) + seq![';', ' '] + len + seq![']'];
            assert(render(t, 0, 0, TypeParamsFmtOpts::All) =~= text);
            assert(full_text(strip_paths(t)) =~= text);
            assert(render(t, 0, 0, TypeParamsFmtOpts::All) == full_text(strip_paths(t)));
        },
        TypeNameView::Reference { mutable, elem, .. } => {
            lemma_render_zero(*elem);
            let m = if mutable {
                seq!['m', 'u', 't', ' ']
            } else {
                seq![]
            };
            let text = seq!['&'] + m + full_text(strip_paths(*elem));
            assert(render(t, 0, 0, TypeParamsFmtOpts::All) =~= text);
            assert(full_text(strip_paths(t)) =~= text);
        },
        TypeNameView::Slice { elem } => {
            lemma_render_zero(*elem);
            let text = seq!['['] + full_text(strip_paths(*elem)) + seq![']'];
            assert(render(t, 0, 0, TypeParamsFmtOpts::All) =~= text);
            assert(full_text(strip_paths(t)) =~= text);
        },
        TypeNameView::Struct { module_segments, simple_name, type_params } => {
            lemma_render_zero_list(type_params);
            lemma_strip_paths_list(type_params);
            lemma_elided_path_zero(module_segments);
            let list = full_text_list(strip_paths_list(type_params));
            let text = simple_name + angled(type_params.len(), list);
            assert(render(t, 0, 0, TypeParamsFmtOpts::All) == render_nominal(
                module_segments,
                simple_name,
                type_params,
                0,
                0,
                TypeParamsFmtOpts::All,
            ));
            assert(render(t, 0, 0, TypeParamsFmtOpts::All) =~= text);
            assert(full_text(strip_paths(t)) =~= text);
        },
        TypeNameView::Tuple { elems, .. } => {
            lemma_render_zero_list(elems);
            lemma_strip_paths_list(elems);
            let list = full_text_list(strip_paths_list(elems));
            assert(render(t, 0, 0, TypeParamsFmtOpts::All) == parenthesized(elems.len(), list));
            assert(full_text(strip_paths(t)) == parenthesized(elems.len(), list));
        },
        TypeNameView::Trait { module_segments, simple_name, type_params } => {
            lemma_render_zero_list(type_params);
            lemma_strip_paths_list(type_params);
            lemma_elided_path_zero(module_segments);
            let list = full_text_list(strip_paths_list(type_params));
            let text = seq!['d', 'y', 'n', ' '] + (simple_name + angled(type_params.len(), list));
            assert(render(t, 0, 0, TypeParamsFmtOpts::All) == seq!['d', 'y', 'n', ' ']
                + render_nominal(module_segments, simple_name, type_params, 0, 0, TypeParamsFmtOpts::All));
            assert(render(t, 0, 0, TypeParamsFmtOpts::All) =~= text);
            assert(full_text(strip_paths(t)) =~= text);
        },
        _ => {},
    }
}

/// Rendering a list with no segment kept writes the text of the stripped
/// list.
proof fn lemma_render_zero_list(ts: Seq<TypeNameView>)
    requires
        !list_has_pointer(ts),
    ensures
        render_list(ts, 0, 0, TypeParamsFmtOpts::All) == full_text_list(strip_paths_list(ts)),
    decreases ts, 0nat,
{
    lemma_strip_paths_list(ts);
    if ts.len() == 1 {
        assert(ts.drop_last().len() == 0);
        assert(!has_pointer(ts.last()));
        lemma_render_zero(ts[0]);
    } else if ts.len() > 1 {
        let s = strip_paths_list(ts);
        lemma_render_zero_list(ts.drop_last());
        lemma_render_zero(ts.last());
        assert(s.drop_last() == strip_paths_list(ts.drop_last()));
        assert(s.last() == strip_paths(ts.last()));
    }
}

/// Rendering with `m + n` covering every path writes the full text.
proof fn lemma_render_full(t: TypeNameView, m: nat, n: nat)
    requires
        !has_pointer(t),
        written_plainly(t),
        m + n >= max_depth(t),
    ensures
        render(t, m, n, TypeParamsFmtOpts::All) == full_text(t),
    decreases t, 0nat,
{
    match t {
        TypeNameView::Array { elem, len } => {
            lemma_render_full(*elem, m, n);
            let text = seq!['['] + full_text(*elem) + seq![';', ' '] + len + seq![']'];
            assert(render(t, m, n, TypeParamsFmtOpts::All) =~= text);
            assert(full_text(t) =~= text);
            assert(render(t, m, n, TypeParamsFmtOpts::All) == full_text(t));
        },
        TypeNameView::Reference { mutable, elem, .. } => {
            lemma_render_full(*elem, m, n);
            let k = if mutable {
                seq!['m', 'u', 't', ' ']
            } else {
                seq![]
            };
            let text = seq!['&'] + k + full_text(*elem);
            assert(render(t, m, n, TypeParamsFmtOpts::All) =~= text);
            assert(full_text(t) =~= text);
        },
        TypeNameView::Slice { elem } => {
            lemma_render_full(*elem, m, n);
            let text = seq!['['] + full_text(*elem) + seq![']'];
            assert(render(t, m, n, TypeParamsFmtOpts::All) =~= text);
            assert(full_text(t) =~= text);
        },
        TypeNameView::Struct { module_segments, simple_name, type_params } => {
            lemma_render_full_list(type_params, m, n);
            lemma_elided_path_full(module_segments, m, n);
            let text = full_path(module_segments) + simple_name + angled(
                type_params.len(),
                full_text_list(type_params),
            );
            assert(render(t, m, n, TypeParamsFmtOpts::All) == render_nominal(
                module_segments,
                simple_name,
                type_params,
                m,
                n,
                TypeParamsFmtOpts::All,
            ));
            assert(render(t, m, n, TypeParamsFmtOpts::All) =~= text);
            assert(full_text(t) =~= text);
        },
        TypeNameView::Tuple { elems, .. } => {
            lemma_render_full_list(elems, m, n);
            assert(render(t, m, n, TypeParamsFmtOpts::All) == parenthesized(
                elems.len(),
                full_text_list(elems),
            ));
        },
        TypeNameView::Trait { module_segments, simple_name, type_params } => {
            lemma_render_full_list(type_params, m, n);
            lemma_elided_path_full(module_segments, m, n);
            let text = seq!['d', 'y', 'n', ' '] + (full_path(module_segments) + simple_name + angled(
                type_params.len(),
                full_text_list(type_params),
            ));
            assert(render(t, m, n, TypeParamsFmtOpts::All) == seq!['d', 'y', 'n', ' ']
                + render_nominal(module_segments, simple_name, type_params, m, n, TypeParamsFmtOpts::All));
            assert(render(t, m, n, TypeParamsFmtOpts::All) =~= text);
            assert(full_text(t) =~= text);
        },
        _ => {},
    }
}

/// Rendering a list with `m + n` covering every path writes its full text.
proof fn lemma_render_full_list(ts: Seq<TypeNameView>, m: nat, n: nat)
    requires
        !list_has_pointer(ts),
        written_plainly_list(ts),
        m + n >= max_depth_list(ts),
    ensures
        render_list(ts, m, n, TypeParamsFmtOpts::All) == full_text_list(ts),
    decreases ts, 0nat,
{
    if ts.len() == 1 {
        assert(ts.drop_last().len() == 0);
        lemma_render_full(ts[0], m, n);
    } else if ts.len() > 1 {
        lemma_render_full_list(ts.drop_last(), m, n);
        lemma_render_full(ts.last(), m, n);
    }
}

/// Rendering a parsed tree with `m = n = 0` writes the text of the same tree
/// with every module path removed: simple names and type parameters only.
pub proof fn lemma_zero_counts_give_the_skeleton(s: Seq<char>, t: TypeNameView)
    requires
        describes(s, t),
        !has_pointer(t),
    ensures
        render(t, 0, 0, TypeParamsFmtOpts::All) == full_text(strip_paths(t)),
{
    lemma_render_zero(t);
}

/// Rendering a parsed tree with `m` and `n` together at least its deepest
/// module path, in particular with both at least that depth, gives back the
/// text it was parsed from. A text with a space after an immutable `&` or a
/// trailing `,` in a tuple of two or more elements is left out: rendering
/// writes neither.
pub proof fn lemma_large_counts_give_the_input(s: Seq<char>, t: TypeNameView, m: nat, n: nat)
    requires
        describes(s, t),
        !has_pointer(t),
        written_plainly(t),
        m + n >= max_depth(t),
    ensures
        render(t, m, n, TypeParamsFmtOpts::All) == s,
{
    lemma_render_full(t, m, n);
}

/// Keeping more leading or trailing segments never hides more segments of a
/// path, and never hides a segment that was shown.
pub proof fn lemma_elision_is_monotone(len: nat, m: nat, n: nat, m2: nat, n2: nat)
    requires
        m <= m2,
        n <= n2,
    ensures
        hidden_count(len, m2, n2) <= hidden_count(len, m, n),
        forall|i: int| shown(len, m, n, i) ==> #[trigger] shown(len, m2, n2, i),
{
}

/// How many module segments of all the nominal types in the tree are left
/// out when at most `m` leading and `n` trailing segments of each are kept.
pub open spec fn hidden_total(t: TypeNameView, m: nat, n: nat) -> nat
    decreases t, 0nat,
{
    match t {
        TypeNameView::Array { elem, .. } => hidden_total(*elem, m, n),
        TypeNameView::Pointer { elem, .. } => hidden_total(*elem, m, n),
        TypeNameView::Reference { elem, .. } => hidden_total(*elem, m, n),
        TypeNameView::Slice { elem } => hidden_total(*elem, m, n),
        TypeNameView::Struct { module_segments, type_params, .. } => hidden_count(
            module_segments.len(),
            m,
            n,
        ) + hidden_total_list(type_params, m, n),
        TypeNameView::Tuple { elems, .. } => hidden_total_list(elems, m, n),
        TypeNameView::Trait { module_segments, type_params, .. } => hidden_count(
            module_segments.len(),
            m,
            n,
        ) + hidden_total_list(type_params, m, n),
        _ => 0,
    }
}

/// `hidden_total` summed over the trees of a sequence.
pub open spec fn hidden_total_list(ts: Seq<TypeNameView>, m: nat, n: nat) -> nat
    decreases ts, 0nat,
{
    if ts.len() == 0 {
        0
    } else {
        hidden_total_list(ts.drop_last(), m, n) + hidden_total(ts.last(), m, n)
    }
}

/// Keeping more leading or trailing segments never hides more segments of a
/// tree, counted over all its nominal types.
pub proof fn lemma_hidden_total_is_monotone(t: TypeNameView, m: nat, n: nat, m2: nat, n2: nat)
    requires
        m <= m2,
        n <= n2,
    ensures
        hidden_total(t, m2, n2) <= hidden_total(t, m, n),
    decreases t, 0nat,
{
    match t {
        TypeNameView::Array { elem, .. } => lemma_hidden_total_is_monotone(*elem, m, n, m2, n2),
        TypeNameView::Pointer { elem, .. } => lemma_hidden_total_is_monotone(*elem, m, n, m2, n2),
        TypeNameView::Reference { elem, .. } => lemma_hidden_total_is_monotone(*elem, m, n, m2, n2),
        TypeNameView::Slice { elem } => lemma_hidden_total_is_monotone(*elem, m, n, m2, n2),
        TypeNameView::Struct { module_segments, type_params, .. } => {
            lemma_elision_is_monotone(module_segments.len(), m, n, m2, n2);
            lemma_hidden_total_list_is_monotone(type_params, m, n, m2, n2);
        },
        TypeNameView::Tuple { elems, .. } => lemma_hidden_total_list_is_monotone(elems, m, n, m2, n2),
        TypeNameView::Trait { module_segments, type_params, .. } => {
            lemma_elision_is_monotone(module_segments.len(), m, n, m2, n2);
            lemma_hidden_total_list_is_monotone(type_params, m, n, m2, n2);
        },
        _ => {},
    }
}

/// Keeping more leading or trailing segments never hides more segments of a
/// sequence of trees.
proof fn lemma_hidden_total_list_is_monotone(
    ts: Seq<TypeNameView>,
    m: nat,
    n: nat,
    m2: nat,
    n2: nat,
)
    requires
        m <= m2,
        n <= n2,
    ensures
        hidden_total_list(ts, m2, n2) <= hidden_total_list(ts, m, n),
    decreases ts, 0nat,
{
    if ts.len() > 0 {
        lemma_hidden_total_list_is_monotone(ts.drop_last(), m, n, m2, n2);
        lemma_hidden_total_is_monotone(ts.last(), m, n, m2, n2);
    }
}

/// Every shown segment of a path is written, followed by `"::"`, in what
/// `elided_path` produces.
proof fn lemma_shown_segment_is_written(path: Seq<Seq<char>>, m: nat, n: nat, i: int)
    requires
        shown(path.len(), m, n, i),
        m + n > 0,
    ensures
        exists|k: int|
            0 <= k && k + path[i].len() + 2 <= elided_path(path, m, n).len() && #[trigger] elided_path(
                path,
                m,
                n,
            ).subrange(k, k + path[i].len() + 2) == path[i] + colons(),
{
    let len = path.len();
    let w = path[i];
    let out = elided_path(path, m, n);
    if m + n >= len {
        lemma_path_prefix(path, i);
        let k = full_path(path.take(i)).len() as int;
        assert(out == full_path(path));
        assert(out.subrange(k, k + w.len() + 2) == w + colons());
    } else if i < m {
        let front = path.take(m as int);
        assert(front[i] == w);
        lemma_path_prefix(front, i);
        let k = full_path(front.take(i)).len() as int;
        let head = join_path(front) + colons();
        assert(head == full_path(front));
        assert(out == head + dots() + (if n > 0 {
            colons() + join_path(path.skip(len - n))
        } else {
            seq![]
        }) + colons());
        assert(out.subrange(k, k + w.len() + 2) =~= head.subrange(k, k + w.len() + 2));
    } else {
        let back = path.skip(len - n);
        let j = i - (len - n);
        assert(back[j] == w);
        lemma_path_prefix(back, j);
        let l = full_path(back.take(j)).len() as int;
        let head = if m > 0 {
            join_path(path.take(m as int)) + colons()
        } else {
            seq![]
        };
        let lead = head + dots() + colons();
        assert(full_path(back) == join_path(back) + colons());
        assert(out =~= lead + full_path(back));
        let k = lead.len() + l;
        assert(out.subrange(k, k + w.len() + 2) =~= full_path(back).subrange(l, l + w.len() + 2));
    }
}

/// Keeping more leading or trailing segments never drops a segment from the
/// text: a segment written with `m` and `n` is also written with `m2 >= m`
/// and `n2 >= n`.
pub proof fn lemma_shown_segment_stays_written(
    path: Seq<Seq<char>>,
    m: nat,
    n: nat,
    m2: nat,
    n2: nat,
    i: int,
)
    requires
        m <= m2,
        n <= n2,
        m + n > 0,
        shown(path.len(), m, n, i),
    ensures
        exists|k: int|
            0 <= k && k + path[i].len() + 2 <= elided_path(path, m2, n2).len()
                && #[trigger] elided_path(path, m2, n2).subrange(k, k + path[i].len() + 2) == path[i]
                + colons(),
{
    lemma_elision_is_monotone(path.len(), m, n, m2, n2);
    lemma_shown_segment_is_written(path, m2, n2, i);
}

/// Rendering is a function of the tree and the counts: the same tree rendered
/// twice with the same counts gives the same text.
pub proof fn lemma_render_is_repeatable(
    t: TypeNameView,
    m: nat,
    n: nat,
    opts: TypeParamsFmtOpts,
    first: Seq<char>,
    second: Seq<char>,
)
    requires
        first == render(t, m, n, opts),
        second == render(t, m, n, opts),
    ensures
        first == second,
{
}

} // verus!
