//! Helpers for raw identifiers (`r#name`).

use vstd::prelude::*;
use crate::text::ascii;
use crate::syntax::Ident;
use crate::text::has_prefix;

verus! {

/// The raw-identifier marker `r#`.
pub open spec fn raw_marker() -> Seq<char> {
    seq!['r', '#']
}

/// `s` is written as a raw identifier.
pub open spec fn raw_marked(s: Seq<char>) -> bool {
    has_prefix(s, raw_marker())
}

/// `s` without its raw-identifier marker, if it has one.
pub open spec fn unraw(s: Seq<char>) -> Seq<char> {
    if raw_marked(s) {
        s.subrange(2, s.len() as int)
    } else {
        s
    }
}

/// The text of the identifier that syn reads from `s`, as its `Display`
/// writes it (with `r#` for a raw identifier); `None` where `s` is not one
/// identifier.
pub uninterp spec fn parsed_ident(s: Seq<char>) -> Option<Seq<char>>;

/// Relies on `syn::parse_str::<syn::Ident>` and on `Display` of
/// `proc_macro2::Ident`: on ASCII text, where the compiler's lexer and
/// proc-macro2's own agree, the result depends on the text alone.
#[verifier::external_body]
fn parse_ident_text(s: &str) -> (r: Option<String>)
    ensures
        ascii(s@) ==> (r is Some <==> parsed_ident(s@) is Some),
        ascii(s@) && r is Some ==> r->0@ == parsed_ident(s@)->0,
{
    syn::parse_str::<syn::Ident>(s).ok().map(|i| i.to_string())
}

/// Whether `s` starts with the raw-identifier marker `r#`.
pub fn is_raw_ident(s: &str) -> (r: bool)
    ensures
        r == raw_marked(s@),
{
    if s.unicode_len() < 2 {
        return false;
    }
    let a = s.get_char(0);
    let b = s.get_char(1);
    proof {
        assert(s@.subrange(0, 2) =~= seq![a, b]);
    }
    a == 'r' && b == '#'
}

/// `s` without a leading `r#`; `s` itself where it has none.
pub fn strip_raw_prefix(s: &str) -> (r: &str)
    ensures
        r@ == unraw(s@),
{
    if is_raw_ident(s) {
        s.substring_char(2, s.unicode_len())
    } else {
        s
    }
}

/// Parses `s` as one identifier, raw or not; `None` where it is not one.
pub fn ident_from_string(s: &str) -> (r: Option<Ident>)
    ensures
        ascii(s@) ==> (r is Some <==> parsed_ident(s@) is Some),
        ascii(s@) && r is Some ==> r->0@ == parsed_ident(s@)->0,
{
    match parse_ident_text(s) {
        Some(t) => Some(Ident::from_string(t)),
        None => None,
    }
}

} // verus!
