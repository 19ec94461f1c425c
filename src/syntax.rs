//! Type paths as plain values: identifiers, segments and paths.

use vstd::prelude::*;
use crate::text::ascii;
use crate::utils::{raw_marked, strip_raw_prefix, unraw};

verus! {

/// An identifier as written, `r#` included for a raw one. The text is taken
/// as given: only syn's parser checks that it is an identifier.
pub struct Ident {
    text: String,
}

impl View for Ident {
    type V = Seq<char>;

    closed spec fn view(&self) -> Seq<char> {
        self.text@
    }
}

impl Ident {
    /// An identifier with the text `s`.
    pub fn new(s: &str) -> (r: Ident)
        ensures
            r@ == s@,
    {
        Ident { text: s.to_owned() }
    }

    /// An identifier that takes `s` as its text.
    pub fn from_string(s: String) -> (r: Ident)
        ensures
            r@ == s@,
    {
        Ident { text: s }
    }

    /// The text of the identifier.
    pub fn as_str(&self) -> (r: &str)
        ensures
            r@ == self@,
    {
        self.text.as_str()
    }

    /// The text of the identifier, owned.
    pub fn to_string(&self) -> (r: String)
        ensures
            r@ == self@,
    {
        self.text.clone()
    }
}

/// One segment of a path: a name, and whether generic arguments follow it.
pub struct PathSegment {
    pub ident: Ident,
    pub has_arguments: bool,
}

impl View for PathSegment {
    type V = (Seq<char>, bool);

    open spec fn view(&self) -> (Seq<char>, bool) {
        (self.ident@, self.has_arguments)
    }
}

/// A qualified path, `::a::b::C<T>`: the leading `::` and its segments.
pub struct Path {
    pub leading_colon: bool,
    pub segments: Vec<PathSegment>,
}

/// The segments of a path as values.
pub open spec fn segments_view(segs: Seq<PathSegment>) -> Seq<(Seq<char>, bool)> {
    segs.map_values(|s: PathSegment| s@)
}

impl View for Path {
    type V = (bool, Seq<(Seq<char>, bool)>);

    open spec fn view(&self) -> (bool, Seq<(Seq<char>, bool)>) {
        (self.leading_colon, segments_view(self.segments@))
    }
}

/// A segment with its name unmarked.
pub open spec fn unraw_segment(s: (Seq<char>, bool)) -> (Seq<char>, bool) {
    (unraw(s.0), s.1)
}

/// Some segment name is written as a raw identifier.
pub open spec fn segments_have_raw(segs: Seq<(Seq<char>, bool)>) -> bool {
    exists|i: int| 0 <= i < segs.len() && raw_marked(#[trigger] segs[i].0)
}

/// Strips the raw-identifier marker `r#` from names.
pub trait StripRaw {
    type Output;

    /// A copy with every raw-identifier marker removed.
    fn strip_raw(&self) -> Self::Output;
}

/// Tells whether names carry the raw-identifier marker `r#`.
pub trait HasRaw {
    /// Whether some name is written as a raw identifier.
    fn has_raw(&self) -> bool;
}

impl StripRaw for Ident {
    type Output = Ident;

    fn strip_raw(&self) -> (r: Ident)
        ensures
            r@ == unraw(self@),
    {
        Ident::new(strip_raw_prefix(self.text.as_str()))
    }
}

impl HasRaw for Ident {
    fn has_raw(&self) -> (r: bool)
        ensures
            r == raw_marked(self@),
    {
        crate::utils::is_raw_ident(self.text.as_str())
    }
}

impl StripRaw for PathSegment {
    type Output = PathSegment;

    fn strip_raw(&self) -> (r: PathSegment)
        ensures
            r@ == unraw_segment(self@),
    {
        PathSegment { ident: self.ident.strip_raw(), has_arguments: self.has_arguments }
    }
}

impl HasRaw for PathSegment {
    fn has_raw(&self) -> (r: bool)
        ensures
            r == raw_marked(self@.0),
    {
        self.ident.has_raw()
    }
}

impl StripRaw for Path {
    type Output = Path;

    fn strip_raw(&self) -> (r: Path)
        ensures
            r@.0 == self@.0,
            r@.1 == self@.1.map_values(|s: (Seq<char>, bool)| unraw_segment(s)),
    {
        let mut segments: Vec<PathSegment> = Vec::new();
        let mut i: usize = 0;
        while i < self.segments.len()
            invariant
                i <= self.segments.len(),
                segments.len() == i,
                forall|j: int| 0 <= j < i ==> #[trigger] segments@[j]@ == unraw_segment(self@.1[j]),
            decreases self.segments.len() - i,
        {
            segments.push(self.segments[i].strip_raw());
            i = i + 1;
        }
        let r = Path { leading_colon: self.leading_colon, segments };
        assert(r@.1 =~= self@.1.map_values(|s: (Seq<char>, bool)| unraw_segment(s)));
        r
    }
}

impl HasRaw for Path {
    fn has_raw(&self) -> (r: bool)
        ensures
            r == segments_have_raw(self@.1),
    {
        let mut i: usize = 0;
        while i < self.segments.len()
            invariant
                i <= self.segments.len(),
                forall|j: int| 0 <= j < i ==> !raw_marked(#[trigger] self@.1[j].0),
            decreases self.segments.len() - i,
        {
            if self.segments[i].has_raw() {
                assert(raw_marked(self@.1[i as int].0));
                return true;
            }
            i = i + 1;
        }
        false
    }
}

/// The path that syn reads from `s`, as values; `None` where `s` is not a path.
pub uninterp spec fn parsed_path(s: Seq<char>) -> Option<(bool, Seq<(Seq<char>, bool)>)>;

/// Relies on `syn::parse_str::<syn::Path>` and on `Display` of
/// `proc_macro2::Ident`: on ASCII text, where the compiler's lexer and
/// proc-macro2's own agree, the result depends on the text alone. Each segment
/// keeps its identifier's text and whether `syn::PathArguments` is other than
/// `None`.
#[verifier::external_body]
fn parse_syn_path(s: &str) -> (r: Option<Path>)
    ensures
        ascii(s@) ==> (r is Some <==> parsed_path(s@) is Some),
        ascii(s@) && r is Some ==> r->0@ == parsed_path(s@)->0,
{
    syn::parse_str::<syn::Path>(s).ok().map(|p| Path {
        leading_colon: p.leading_colon.is_some(),
        segments: p.segments.iter().map(|seg| PathSegment {
            ident: Ident::from_string(seg.ident.to_string()),
            has_arguments: !matches!(seg.arguments, syn::PathArguments::None),
        }).collect(),
    })
}

/// Parses `s` as a Rust path, such as `::std::option::Option<T>`.
pub fn parse_path(s: &str) -> (r: Option<Path>)
    ensures
        ascii(s@) ==> (r is Some <==> parsed_path(s@) is Some),
        ascii(s@) && r is Some ==> r->0@ == parsed_path(s@)->0,
{
    parse_syn_path(s)
}

} // verus!
