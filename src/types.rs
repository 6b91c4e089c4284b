use vstd::prelude::*;

use crate::model::{
    angled, colons, comma_space, elided_path, is_std_path, join_path, render, render_list,
    render_nominal, shows_params, TypeNameView,
};
use crate::type_params_fmt_opts::TypeParamsFmtOpts;

verus! {

/// Organizes a type name string into distinct parts.
///
/// Every piece of text in the tree borrows from the string it was parsed from.
#[derive(Debug, PartialEq, Eq)]
pub enum TypeName<'s> {
    Empty,
    Array(TypeNameArray<'s>),
    Never,
    Pointer(TypeNamePointer<'s>),
    Reference(TypeNameReference<'s>),
    Slice(TypeNameSlice<'s>),
    Struct(TypeNameStruct<'s>),
    Tuple(TypeNameTuple<'s>),
    Trait(TypeNameTrait<'s>),
    Unit,
}

/// Type name of an array.
#[derive(Debug, PartialEq, Eq)]
pub struct TypeNameArray<'s> {
    /// Type of each array element.
    pub(crate) type_param: Box<TypeName<'s>>,
    /// Array length, as written.
    pub(crate) len: &'s str,
}

/// Type name of a pointer.
#[derive(Debug, PartialEq, Eq)]
pub struct TypeNamePointer<'s> {
    /// `"const"` or `"mut"`.
    pub(crate) const_or_mut: &'s str,
    /// Type pointed to.
    pub(crate) type_param: Box<TypeName<'s>>,
}

/// Type name of a reference.
#[derive(Debug, PartialEq, Eq)]
pub struct TypeNameReference<'s> {
    /// Whether the reference is mutable.
    pub(crate) mutable: bool,
    /// Whether the text wrote a space between `&` and an immutable referent.
    pub(crate) spaced: bool,
    /// Type referenced.
    pub(crate) type_param: Box<TypeName<'s>>,
}

/// Type name of a slice.
#[derive(Debug, PartialEq, Eq)]
pub struct TypeNameSlice<'s> {
    /// Type of each slice element.
    pub(crate) type_param: Box<TypeName<'s>>,
}

/// Type name of a struct, enum or primitive.
#[derive(Debug, PartialEq, Eq)]
pub struct TypeNameStruct<'s> {
    /// Module path of this type.
    pub(crate) module_segments: Vec<&'s str>,
    /// Simple type name, excluding type parameters.
    pub(crate) simple_name: &'s str,
    /// Type parameters of this type.
    pub(crate) type_params: Vec<TypeName<'s>>,
}

/// Type name of a tuple.
#[derive(Debug, PartialEq, Eq)]
pub struct TypeNameTuple<'s> {
    /// Element types.
    pub(crate) type_params: Vec<TypeName<'s>>,
    /// Whether the text wrote a `,` after the last of two or more elements.
    pub(crate) trailing_comma: bool,
}

/// Type name of a trait object.
#[derive(Debug, PartialEq, Eq)]
pub struct TypeNameTrait<'s> {
    /// Path, name and parameters of the trait, laid out as for a struct.
    pub(crate) inner: TypeNameStruct<'s>,
}

/// The views of module segments.
pub open spec fn segments_view(segs: Seq<&str>) -> Seq<Seq<char>> {
    segs.map_values(|s: &str| s@)
}

/// The mathematical value of a tree.
pub open(crate) spec fn type_name_view(t: TypeName) -> TypeNameView
    decreases t, 0nat,
{
    match t {
        TypeName::Empty => TypeNameView::Empty,
        TypeName::Array(a) => TypeNameView::Array {
            elem: Box::new(type_name_view(*a.type_param)),
            len: a.len@,
        },
        TypeName::Never => TypeNameView::Never,
        TypeName::Pointer(p) => TypeNameView::Pointer {
            const_or_mut: p.const_or_mut@,
            elem: Box::new(type_name_view(*p.type_param)),
        },
        TypeName::Reference(r) => TypeNameView::Reference {
            mutable: r.mutable,
            spaced: r.spaced,
            elem: Box::new(type_name_view(*r.type_param)),
        },
        TypeName::Slice(s) => TypeNameView::Slice { elem: Box::new(type_name_view(*s.type_param)) },
        TypeName::Struct(s) => TypeNameView::Struct {
            module_segments: segments_view(s.module_segments@),
            simple_name: s.simple_name@,
            type_params: type_names_view(s.type_params@),
        },
        TypeName::Tuple(t) => TypeNameView::Tuple {
            elems: type_names_view(t.type_params@),
            trailing_comma: t.trailing_comma,
        },
        TypeName::Trait(t) => TypeNameView::Trait {
            module_segments: segments_view(t.inner.module_segments@),
            simple_name: t.inner.simple_name@,
            type_params: type_names_view(t.inner.type_params@),
        },
        TypeName::Unit => TypeNameView::Unit,
    }
}

/// The mathematical values of a sequence of trees.
pub open(crate) spec fn type_names_view(ts: Seq<TypeName>) -> Seq<TypeNameView>
    decreases ts, 0nat,
{
    if ts.len() == 0 {
        seq![]
    } else {
        type_names_view(ts.drop_last()).push(type_name_view(ts.last()))
    }
}

/// `type_names_view` maps each element.
pub proof fn lemma_type_names_view(ts: Seq<TypeName>)
    ensures
        type_names_view(ts).len() == ts.len(),
        forall|i: int|
            0 <= i < ts.len() ==> #[trigger] type_names_view(ts)[i] == type_name_view(ts[i]),
    decreases ts.len(),
{
    if ts.len() > 0 {
        lemma_type_names_view(ts.drop_last());
    }
}

impl<'s> View for TypeName<'s> {
    type V = TypeNameView;

    open spec fn view(&self) -> TypeNameView {
        type_name_view(*self)
    }
}

impl<'s> View for TypeNameArray<'s> {
    type V = TypeNameView;

    open spec fn view(&self) -> TypeNameView {
        type_name_view(TypeName::Array(*self))
    }
}

impl<'s> View for TypeNamePointer<'s> {
    type V = TypeNameView;

    open spec fn view(&self) -> TypeNameView {
        type_name_view(TypeName::Pointer(*self))
    }
}

impl<'s> View for TypeNameReference<'s> {
    type V = TypeNameView;

    open spec fn view(&self) -> TypeNameView {
        type_name_view(TypeName::Reference(*self))
    }
}

impl<'s> View for TypeNameSlice<'s> {
    type V = TypeNameView;

    open spec fn view(&self) -> TypeNameView {
        type_name_view(TypeName::Slice(*self))
    }
}

impl<'s> View for TypeNameStruct<'s> {
    type V = TypeNameView;

    open spec fn view(&self) -> TypeNameView {
        type_name_view(TypeName::Struct(*self))
    }
}

impl<'s> View for TypeNameTuple<'s> {
    type V = TypeNameView;

    open spec fn view(&self) -> TypeNameView {
        type_name_view(TypeName::Tuple(*self))
    }
}

impl<'s> View for TypeNameTrait<'s> {
    type V = TypeNameView;

    open spec fn view(&self) -> TypeNameView {
        type_name_view(TypeName::Trait(*self))
    }
}

/// Appends a string to the buffer.
fn push(buffer: &mut String, s: &str)
    ensures
        final(buffer)@ == old(buffer)@ + s@,
{
    buffer.append(s);
}

/// Appends `"::"` to the buffer.
fn push_colons(buffer: &mut String)
    ensures
        final(buffer)@ == old(buffer)@ + colons(),
{
    proof {
        reveal_strlit("::");
    }
    push(buffer, "::");
}

/// Appends `", "` to the buffer.
fn push_comma_space(buffer: &mut String)
    ensures
        final(buffer)@ == old(buffer)@ + comma_space(),
{
    proof {
        reveal_strlit(", ");
    }
    push(buffer, ", ");
}

/// Whether two strings hold the same characters.
pub(crate) fn str_eq(a: &str, b: &str) -> (r: bool)
    ensures
        r == (a@ == b@),
{
    let len = a.unicode_len();
    if len != b.unicode_len() {
        return false;
    }
    let mut i: usize = 0;
    while i < len
        invariant
            len == a@.len() == b@.len(),
            i <= len,
            a@.take(i as int) == b@.take(i as int),
        decreases len - i,
    {
        if a.get_char(i) != b.get_char(i) {
            return false;
        }
        proof {
            assert(a@.take(i + 1) =~= a@.take(i as int).push(a@[i as int]));
            assert(b@.take(i + 1) =~= b@.take(i as int).push(b@[i as int]));
        }
        i = i + 1;
    }
    proof {
        assert(a@ =~= a@.take(len as int));
        assert(b@ =~= b@.take(len as int));
    }
    true
}

impl<'s> TypeName<'s> {
    /// Returns the type name string without any module paths.
    ///
    /// This is equivalent to calling `TypeName::as_str_mn(0, 0);`
    pub fn as_str(&self) -> (r: String)
        ensures
            r@ == render(self@, 0, 0, TypeParamsFmtOpts::All),
    {
        self.as_str_mn(0, 0)
    }

    /// Returns the type name string with the given number of module segments.
    ///
    /// If the left and right module segments overlap, the overlapping segments
    /// are only printed once.
    ///
    /// # Parameters
    ///
    /// * `m`: Number of module segments to include, beginning from the left (most significant).
    /// * `n`: Number of module segments to include, beginning from the right (least significant).
    pub fn as_str_mn(&self, m: usize, n: usize) -> (r: String)
        ensures
            r@ == render(self@, m as nat, n as nat, TypeParamsFmtOpts::All),
    {
        self.as_str_mn_opts(m, n, TypeParamsFmtOpts::All)
    }

    /// Returns the type name string with the given number of module segments,
    /// formatting type parameters as `opts` says.
    pub fn as_str_mn_opts(&self, m: usize, n: usize, opts: TypeParamsFmtOpts) -> (r: String)
        ensures
            r@ == render(self@, m as nat, n as nat, opts),
    {
        let mut buffer = String::new();
        self.write_str_opts(&mut buffer, m, n, opts);
        buffer
    }

    /// Returns a value that renders the type name without any module paths.
    pub fn as_display(&self) -> (r: TypeNameDisplay<'_>)
        ensures
            r.name_view() == self@,
            r.counts() == (0usize, 0usize),
    {
        TypeNameDisplay { inner: self, parameters: (0, 0) }
    }

    /// Returns a value that renders the type name with `m` leading and `n`
    /// trailing module segments.
    pub fn as_display_mn(&self, m: usize, n: usize) -> (r: TypeNameDisplay<'_>)
        ensures
            r.name_view() == self@,
            r.counts() == (m, n),
    {
        TypeNameDisplay { inner: self, parameters: (m, n) }
    }

    /// Writes the type name string to the given buffer.
    ///
    /// If the left and right module segments overlap, the overlapping segments
    /// are only printed once.
    pub fn write_str(&self, buffer: &mut String, m: usize, n: usize)
        ensures
            final(buffer)@ == old(buffer)@ + render(self@, m as nat, n as nat, TypeParamsFmtOpts::All),
    {
        self.write_str_opts(buffer, m, n, TypeParamsFmtOpts::All)
    }

    /// Writes the type name string to the given buffer, formatting type
    /// parameters as `opts` says.
    pub fn write_str_opts(&self, buffer: &mut String, m: usize, n: usize, opts: TypeParamsFmtOpts)
        ensures
            final(buffer)@ == old(buffer)@ + render(self@, m as nat, n as nat, opts),
        decreases self, 0nat,
    {
        match self {
            TypeName::Empty => {},
            TypeName::Array(a) => a.write_str_opts(buffer, m, n, opts),
            TypeName::Never => {
                proof {
                    reveal_strlit("!");
                }
                push(buffer, "!");
            },
            TypeName::Pointer(p) => p.write_str_opts(buffer, m, n, opts),
            TypeName::Reference(r) => r.write_str_opts(buffer, m, n, opts),
            TypeName::Slice(s) => s.write_str_opts(buffer, m, n, opts),
            TypeName::Struct(s) => s.write_str_opts(buffer, m, n, opts),
            TypeName::Tuple(t) => t.write_str_opts(buffer, m, n, opts),
            TypeName::Trait(t) => t.write_str_opts(buffer, m, n, opts),
            TypeName::Unit => {
                proof {
                    reveal_strlit("()");
                }
                push(buffer, "()");
            },
        }
    }
}

/// A type name together with the number of leading and trailing module
/// segments to show when it is rendered.
#[derive(Debug)]
pub struct TypeNameDisplay<'s> {
    pub(crate) inner: &'s TypeName<'s>,
    pub(crate) parameters: (usize, usize),
}

impl<'s> TypeNameDisplay<'s> {
    /// The type name shown.
    pub closed spec fn name_view(&self) -> TypeNameView {
        self.inner@
    }

    /// The numbers of leading and trailing module segments shown.
    pub closed spec fn counts(&self) -> (usize, usize) {
        self.parameters
    }

    /// Renders the type name with the segment counts held.
    pub fn to_string(&self) -> (r: String)
        ensures
            r@ == render(
                self.name_view(),
                self.counts().0 as nat,
                self.counts().1 as nat,
                TypeParamsFmtOpts::All,
            ),
    {
        self.inner.as_str_mn(self.parameters.0, self.parameters.1)
    }
}

impl<'s> TypeNameArray<'s> {
    /// Returns the element type.
    pub fn type_param(&self) -> (r: &Box<TypeName<'s>>)
        ensures
            self@ matches TypeNameView::Array { elem, .. } && (**r)@ == *elem,
    {
        &self.type_param
    }

    /// Returns the array length, as written.
    pub fn len(&self) -> (r: &str)
        ensures
            self@ matches TypeNameView::Array { len, .. } && r@ == len,
    {
        self.len
    }

    /// Writes the type name string to the given buffer.
    pub fn write_str(&self, buffer: &mut String, m: usize, n: usize)
        ensures
            final(buffer)@ == old(buffer)@ + render(self@, m as nat, n as nat, TypeParamsFmtOpts::All),
    {
        self.write_str_opts(buffer, m, n, TypeParamsFmtOpts::All)
    }

    /// Writes the type name string to the given buffer, formatting type
    /// parameters as `opts` says.
    pub fn write_str_opts(&self, buffer: &mut String, m: usize, n: usize, opts: TypeParamsFmtOpts)
        ensures
            final(buffer)@ == old(buffer)@ + render(self@, m as nat, n as nat, opts),
        decreases self, 0nat,
    {
        proof {
            reveal_strlit("[");
            reveal_strlit("; ");
            reveal_strlit("]");
        }
        push(buffer, "[");
        self.type_param.write_str_opts(buffer, m, n, opts);
        push(buffer, "; ");
        push(buffer, self.len);
        push(buffer, "]");
    }
}

impl<'s> TypeNamePointer<'s> {
    /// Returns the `"const"` or `"mut"` str.
    pub fn const_or_mut(&self) -> (r: &str)
        ensures
            self@ matches TypeNameView::Pointer { const_or_mut, .. } && r@ == const_or_mut,
    {
        self.const_or_mut
    }

    /// Returns the type pointed to.
    pub fn type_param(&self) -> (r: &Box<TypeName<'s>>)
        ensures
            self@ matches TypeNameView::Pointer { elem, .. } && (**r)@ == *elem,
    {
        &self.type_param
    }

    /// Writes the type name string to the given buffer.
    pub fn write_str(&self, buffer: &mut String, m: usize, n: usize)
        ensures
            final(buffer)@ == old(buffer)@ + render(self@, m as nat, n as nat, TypeParamsFmtOpts::All),
    {
        self.write_str_opts(buffer, m, n, TypeParamsFmtOpts::All)
    }

    /// Writes the type name string to the given buffer, formatting type
    /// parameters as `opts` says.
    pub fn write_str_opts(&self, buffer: &mut String, m: usize, n: usize, opts: TypeParamsFmtOpts)
        ensures
            final(buffer)@ == old(buffer)@ + render(self@, m as nat, n as nat, opts),
        decreases self, 0nat,
    {
        proof {
            reveal_strlit("* ");
            reveal_strlit(" ");
        }
        push(buffer, "* ");
        push(buffer, self.const_or_mut);
        push(buffer, " ");
        self.type_param.write_str_opts(buffer, m, n, opts);
    }
}

impl<'s> TypeNameReference<'s> {
    /// Returns whether the reference is mutable.
    pub fn mutable(&self) -> (r: bool)
        ensures
            self@ matches TypeNameView::Reference { mutable, .. } && r == mutable,
    {
        self.mutable
    }

    /// Returns the type referenced.
    pub fn type_param(&self) -> (r: &Box<TypeName<'s>>)
        ensures
            self@ matches TypeNameView::Reference { elem, .. } && (**r)@ == *elem,
    {
        &self.type_param
    }

    /// Writes the type name string to the given buffer.
    pub fn write_str(&self, buffer: &mut String, m: usize, n: usize)
        ensures
            final(buffer)@ == old(buffer)@ + render(self@, m as nat, n as nat, TypeParamsFmtOpts::All),
    {
        self.write_str_opts(buffer, m, n, TypeParamsFmtOpts::All)
    }

    /// Writes the type name string to the given buffer, formatting type
    /// parameters as `opts` says.
    pub fn write_str_opts(&self, buffer: &mut String, m: usize, n: usize, opts: TypeParamsFmtOpts)
        ensures
            final(buffer)@ == old(buffer)@ + render(self@, m as nat, n as nat, opts),
        decreases self, 0nat,
    {
        proof {
            reveal_strlit("&");
            reveal_strlit("mut ");
        }
        push(buffer, "&");
        if self.mutable {
            push(buffer, "mut ");
        }
        self.type_param.write_str_opts(buffer, m, n, opts);
    }
}

impl<'s> TypeNameSlice<'s> {
    /// Returns the element type.
    pub fn type_param(&self) -> (r: &Box<TypeName<'s>>)
        ensures
            self@ matches TypeNameView::Slice { elem } && (**r)@ == *elem,
    {
        &self.type_param
    }

    /// Writes the type name string to the given buffer.
    ///
    /// No `"&"` is written: a slice always stands behind a reference, which
    /// writes it.
    pub fn write_str(&self, buffer: &mut String, m: usize, n: usize)
        ensures
            final(buffer)@ == old(buffer)@ + render(self@, m as nat, n as nat, TypeParamsFmtOpts::All),
    {
        self.write_str_opts(buffer, m, n, TypeParamsFmtOpts::All)
    }

    /// Writes the type name string to the given buffer, formatting type
    /// parameters as `opts` says.
    pub fn write_str_opts(&self, buffer: &mut String, m: usize, n: usize, opts: TypeParamsFmtOpts)
        ensures
            final(buffer)@ == old(buffer)@ + render(self@, m as nat, n as nat, opts),
        decreases self, 0nat,
    {
        proof {
            reveal_strlit("[");
            reveal_strlit("]");
        }
        push(buffer, "[");
        self.type_param.write_str_opts(buffer, m, n, opts);
        push(buffer, "]");
    }
}

impl<'s> TypeNameStruct<'s> {
    /// Returns the module path of the type.
    pub fn module_segments(&self) -> (r: &[&'s str])
        ensures
            self@ matches TypeNameView::Struct { module_segments, .. } && segments_view(r@)
                == module_segments,
    {
        self.module_segments.as_slice()
    }

    /// Returns the simple name of the type, excluding type parameters.
    pub fn simple_name(&self) -> (r: &'s str)
        ensures
            self@ matches TypeNameView::Struct { simple_name, .. } && r@ == simple_name,
    {
        self.simple_name
    }

    /// Returns the type parameters of this type.
    pub fn type_params(&self) -> (r: &[TypeName<'s>])
        ensures
            self@ matches TypeNameView::Struct { type_params, .. } && r@.len() == type_params.len()
                && forall|i: int| 0 <= i < r@.len() ==> #[trigger] r@[i]@ == type_params[i],
    {
        proof {
            lemma_type_names_view(self.type_params@);
        }
        self.type_params.as_slice()
    }

    /// Whether the module path lies in the standard library.
    fn is_std(&self) -> (r: bool)
        ensures
            r == is_std_path(segments_view(self.module_segments@)),
    {
        if self.module_segments.len() == 0 {
            return false;
        }
        proof {
            reveal_strlit("std");
            reveal_strlit("core");
            reveal_strlit("alloc");
        }
        let first = self.module_segments[0];
        assert(segments_view(self.module_segments@)[0] == first@);
        assert("std"@ =~= seq!['s', 't', 'd']);
        assert("core"@ =~= seq!['c', 'o', 'r', 'e']);
        assert("alloc"@ =~= seq!['a', 'l', 'l', 'o', 'c']);
        str_eq(first, "std") || str_eq(first, "core") || str_eq(first, "alloc")
    }

    /// Writes the segments `lo..hi` of the module path, joined by `"::"`.
    fn write_segments(&self, buffer: &mut String, lo: usize, hi: usize)
        requires
            lo < hi <= self.module_segments.len(),
        ensures
            final(buffer)@ == old(buffer)@ + join_path(
                segments_view(self.module_segments@).subrange(lo as int, hi as int),
            ),
    {
        let ghost start = buffer@;
        let ghost segs = segments_view(self.module_segments@);
        push(buffer, self.module_segments[lo]);
        proof {
            assert(segs.subrange(lo as int, lo + 1) =~= seq![segs[lo as int]]);
        }
        let mut i: usize = lo + 1;
        while i < hi
            invariant
                lo < i <= hi <= self.module_segments.len(),
                segs == segments_view(self.module_segments@),
                buffer@ == start + join_path(segs.subrange(lo as int, i as int)),
            decreases hi - i,
        {
            push_colons(buffer);
            push(buffer, self.module_segments[i]);
            proof {
                assert(segs.subrange(lo as int, i + 1).drop_last() =~= segs.subrange(
                    lo as int,
                    i as int,
                ));
            }
            i = i + 1;
        }
    }

    /// Writes the type name string to the given buffer.
    ///
    /// If the left and right module segments overlap, the overlapping segments
    /// are only printed once.
    pub fn write_str(&self, buffer: &mut String, m: usize, n: usize)
        ensures
            final(buffer)@ == old(buffer)@ + render(self@, m as nat, n as nat, TypeParamsFmtOpts::All),
    {
        self.write_str_opts(buffer, m, n, TypeParamsFmtOpts::All)
    }

    /// Writes the type name string to the given buffer, formatting type
    /// parameters as `opts` says.
    pub fn write_str_opts(&self, buffer: &mut String, m: usize, n: usize, opts: TypeParamsFmtOpts)
        ensures
            final(buffer)@ == old(buffer)@ + render(self@, m as nat, n as nat, opts),
        decreases self, 1nat,
    {
        let ghost start = buffer@;
        self.write_module_path(buffer, m, n);
        self.write_simple_name(buffer);
        self.write_type_params_opts(buffer, m, n, opts);
        proof {
            let segs = segments_view(self.module_segments@);
            let params = type_names_view(self.type_params@);
            let tail = if shows_params(segs, opts) {
                angled(params.len(), render_list(params, m as nat, n as nat, opts))
            } else {
                seq![]
            };
            assert(render(self@, m as nat, n as nat, opts) == render_nominal(
                segs,
                self.simple_name@,
                params,
                m as nat,
                n as nat,
                opts,
            ));
            assert(buffer@ =~= start + (elided_path(segs, m as nat, n as nat) + self.simple_name@
                + tail));
        }
    }

    /// Writes the module path, with at most `m` leading and `n` trailing
    /// segments, and the `"::"` that then precedes the simple name.
    ///
    /// If the left and right module segments overlap, the overlapping segments
    /// are only printed once; `m + n` saturates.
    pub fn write_module_path(&self, buffer: &mut String, m: usize, n: usize)
        ensures
            self@ matches TypeNameView::Struct { module_segments, .. } && final(buffer)@ == old(buffer)@ + elided_path(module_segments, m as nat, n as nat),
    {
        let ghost segs = segments_view(self.module_segments@);
        let len = self.module_segments.len();
        let module_segment_count = m.saturating_add(n);
        if len == 0 || module_segment_count == 0 {
            return;
        }
        if module_segment_count >= len {
            // Print the full module path.
            self.write_segments(buffer, 0, len);
            proof {
                assert(segs.subrange(0, len as int) =~= segs);
            }
        } else {
            // Print leading and trailing module segments around `".."`.
            if m > 0 {
                self.write_segments(buffer, 0, m);
                proof {
                    assert(segs.subrange(0, m as int) =~= segs.take(m as int));
                }
                push_colons(buffer);
            }
            proof {
                reveal_strlit("..");
            }
            push(buffer, "..");
            if n > 0 {
                push_colons(buffer);
                self.write_segments(buffer, len - n, len);
                proof {
                    assert(segs.subrange(len - n, len as int) =~= segs.skip(len - n));
                }
            }
        }
        push_colons(buffer);
    }

    /// Writes the simple name to the given buffer.
    pub fn write_simple_name(&self, buffer: &mut String)
        ensures
            self@ matches TypeNameView::Struct { simple_name, .. } && final(buffer)@ == old(buffer)@ + simple_name,
    {
        push(buffer, self.simple_name);
    }

    /// Writes the type parameters to the given buffer, each with at most `m`
    /// leading and `n` trailing module segments.
    pub fn write_type_params(&self, buffer: &mut String, m: usize, n: usize)
        ensures
            self@ matches TypeNameView::Struct { type_params, .. } && final(buffer)@ == old(buffer)@ + angled(
                type_params.len(),
                render_list(type_params, m as nat, n as nat, TypeParamsFmtOpts::All),
            ),
    {
        self.write_type_params_opts(buffer, m, n, TypeParamsFmtOpts::All)
    }

    /// Writes the type parameters to the given buffer, as `opts` says.
    pub fn write_type_params_opts(
        &self,
        buffer: &mut String,
        m: usize,
        n: usize,
        opts: TypeParamsFmtOpts,
    )
        ensures
            self@ matches TypeNameView::Struct { module_segments, type_params, .. } && final(buffer)@ == old(buffer)@ + if shows_params(module_segments, opts) {
                angled(type_params.len(), render_list(type_params, m as nat, n as nat, opts))
            } else {
                seq![]
            },
        decreases self, 0nat,
    {
        let shows = match opts {
            TypeParamsFmtOpts::All => true,
            TypeParamsFmtOpts::Std => self.is_std(),
        };
        if !shows {
            assert(buffer@ =~= buffer@ + Seq::<char>::empty());
            return;
        }
        if self.type_params.len() == 0 {
            proof {
                lemma_type_names_view(self.type_params@);
            }
            assert(buffer@ =~= buffer@ + Seq::<char>::empty());
            return;
        }
        let ghost start = buffer@;
        proof {
            reveal_strlit("<");
            reveal_strlit(">");
        }
        push(buffer, "<");
        write_list(&self.type_params, buffer, m, n, opts);
        push(buffer, ">");
        proof {
            lemma_type_names_view(self.type_params@);
            let list = render_list(type_names_view(self.type_params@), m as nat, n as nat, opts);
            assert(buffer@ =~= start + (seq!['<'] + list + seq!['>']));
        }
    }
}

/// Writes the renderings of `items`, separated by `", "`.
fn write_list(
    items: &Vec<TypeName>,
    buffer: &mut String,
    m: usize,
    n: usize,
    opts: TypeParamsFmtOpts,
)
    ensures
        final(buffer)@ == old(buffer)@ + render_list(
            type_names_view(items@),
            m as nat,
            n as nat,
            opts,
        ),
    decreases items, 0nat,
{
    let ghost start = buffer@;
    let ghost views = type_names_view(items@);
    proof {
        lemma_type_names_view(items@);
    }
    let len = items.len();
    let mut i: usize = 0;
    while i < len
        invariant
            i <= len == items.len(),
            views == type_names_view(items@),
            views.len() == len,
            forall|j: int| 0 <= j < len ==> #[trigger] views[j] == type_name_view(items@[j]),
            buffer@ == start + render_list(views.take(i as int), m as nat, n as nat, opts),
        decreases len - i,
    {
        if i > 0 {
            push_comma_space(buffer);
        }
        items[i].write_str_opts(buffer, m, n, opts);
        proof {
            assert(views.take(i + 1).drop_last() =~= views.take(i as int));
            assert(views.take(i + 1).last() == views[i as int]);
        }
        i = i + 1;
    }
    proof {
        assert(views.take(len as int) =~= views);
    }
}

impl<'s> TypeNameTuple<'s> {
    /// Returns the element types.
    pub fn type_params(&self) -> (r: &[TypeName<'s>])
        ensures
            self@ matches TypeNameView::Tuple { elems, .. } && r@.len() == elems.len() && forall|i: int|
                0 <= i < r@.len() ==> #[trigger] r@[i]@ == elems[i],
    {
        proof {
            lemma_type_names_view(self.type_params@);
        }
        self.type_params.as_slice()
    }

    /// Writes the type name string to the given buffer.
    pub fn write_str(&self, buffer: &mut String, m: usize, n: usize)
        ensures
            final(buffer)@ == old(buffer)@ + render(self@, m as nat, n as nat, TypeParamsFmtOpts::All),
    {
        self.write_str_opts(buffer, m, n, TypeParamsFmtOpts::All)
    }

    /// Writes the type name string to the given buffer, formatting type
    /// parameters as `opts` says. A tuple of one element keeps its trailing
    /// `","`.
    pub fn write_str_opts(&self, buffer: &mut String, m: usize, n: usize, opts: TypeParamsFmtOpts)
        ensures
            final(buffer)@ == old(buffer)@ + render(self@, m as nat, n as nat, opts),
        decreases self, 0nat,
    {
        proof {
            reveal_strlit("(");
            reveal_strlit(",)");
            reveal_strlit(")");
            lemma_type_names_view(self.type_params@);
        }
        let ghost start = buffer@;
        push(buffer, "(");
        write_list(&self.type_params, buffer, m, n, opts);
        let ghost list = render_list(type_names_view(self.type_params@), m as nat, n as nat, opts);
        if self.type_params.len() == 1 {
            push(buffer, ",)");
            assert(buffer@ =~= start + (seq!['('] + list + seq![',', ')']));
        } else {
            push(buffer, ")");
            assert(buffer@ =~= start + (seq!['('] + list + seq![')']));
        }
    }
}

impl<'s> TypeNameTrait<'s> {
    /// Returns the module path of the trait.
    pub fn module_segments(&self) -> (r: &[&'s str])
        ensures
            self@ matches TypeNameView::Trait { module_segments, .. } && segments_view(r@)
                == module_segments,
    {
        self.inner.module_segments()
    }

    /// Returns the simple name of the trait, excluding type parameters.
    pub fn simple_name(&self) -> (r: &'s str)
        ensures
            self@ matches TypeNameView::Trait { simple_name, .. } && r@ == simple_name,
    {
        self.inner.simple_name()
    }

    /// Returns the type parameters of the trait.
    pub fn type_params(&self) -> (r: &[TypeName<'s>])
        ensures
            self@ matches TypeNameView::Trait { type_params, .. } && r@.len() == type_params.len()
                && forall|i: int| 0 <= i < r@.len() ==> #[trigger] r@[i]@ == type_params[i],
    {
        self.inner.type_params()
    }

    /// Writes the type name string to the given buffer.
    pub fn write_str(&self, buffer: &mut String, m: usize, n: usize)
        ensures
            final(buffer)@ == old(buffer)@ + render(self@, m as nat, n as nat, TypeParamsFmtOpts::All),
    {
        self.write_str_opts(buffer, m, n, TypeParamsFmtOpts::All)
    }

    /// Writes `"dyn "` and the trait's path, name and parameters to the given
    /// buffer, formatting type parameters as `opts` says.
    pub fn write_str_opts(&self, buffer: &mut String, m: usize, n: usize, opts: TypeParamsFmtOpts)
        ensures
            final(buffer)@ == old(buffer)@ + render(self@, m as nat, n as nat, opts),
        decreases self, 0nat,
    {
        proof {
            reveal_strlit("dyn ");
        }
        let ghost start = buffer@;
        push(buffer, "dyn ");
        self.inner.write_module_path(buffer, m, n);
        self.inner.write_simple_name(buffer);
        self.inner.write_type_params_opts(buffer, m, n, opts);
        proof {
            let segs = segments_view(self.inner.module_segments@);
            let params = type_names_view(self.inner.type_params@);
            let name = self.inner.simple_name@;
            let tail = if shows_params(segs, opts) {
                angled(params.len(), render_list(params, m as nat, n as nat, opts))
            } else {
                seq![]
            };
            assert(render(self@, m as nat, n as nat, opts) == seq!['d', 'y', 'n', ' ']
                + render_nominal(segs, name, params, m as nat, n as nat, opts));
            assert(buffer@ =~= start + (seq!['d', 'y', 'n', ' '] + (elided_path(
                segs,
                m as nat,
                n as nat,
            ) + name + tail)));
        }
    }

    /// Writes the module path of the trait, with at most `m` leading and `n`
    /// trailing segments.
    pub fn write_module_path(&self, buffer: &mut String, m: usize, n: usize)
        ensures
            self@ matches TypeNameView::Trait { module_segments, .. } && final(buffer)@ == old(buffer)@ + elided_path(module_segments, m as nat, n as nat),
    {
        self.inner.write_module_path(buffer, m, n)
    }

    /// Writes the simple name of the trait to the given buffer.
    pub fn write_simple_name(&self, buffer: &mut String)
        ensures
            self@ matches TypeNameView::Trait { simple_name, .. } && final(buffer)@ == old(buffer)@ + simple_name,
    {
        self.inner.write_simple_name(buffer)
    }

    /// Writes the type parameters of the trait to the given buffer.
    pub fn write_type_params(&self, buffer: &mut String, m: usize, n: usize)
        ensures
            self@ matches TypeNameView::Trait { type_params, .. } && final(buffer)@ == old(buffer)@ + angled(
                type_params.len(),
                render_list(type_params, m as nat, n as nat, TypeParamsFmtOpts::All),
            ),
    {
        self.inner.write_type_params(buffer, m, n)
    }
}

} // verus!
