//! Terminal colours. The `colored` crate decides at run time, from the
//! environment and its global override, whether text is marked up with ANSI
//! escape sequences or passed through unchanged; the contracts here state
//! both outcomes.

use colored::Colorize;
use crate::text::{count_of, lemma_count_absent, lemma_count_concat};
use vstd::prelude::*;

verus! {

/// The colours that the report uses.
#[derive(Clone, Copy, Debug, PartialEq, Eq)]
pub enum Tint {
    Red,
    Yellow,
    Green,
    Cyan,
    /// White foreground, dimmed.
    DimWhite,
}

/// The escape sequence that ends every marked-up text.
pub open spec fn reset_code() -> Seq<char> {
    seq!['\x1B', '[', '0', 'm']
}

/// The escape sequence that switches `tint` on.
pub open spec fn tint_code(tint: Tint) -> Seq<char> {
    match tint {
        Tint::Red => seq!['\x1B', '[', '3', '1', 'm'],
        Tint::Yellow => seq!['\x1B', '[', '3', '3', 'm'],
        Tint::Green => seq!['\x1B', '[', '3', '2', 'm'],
        Tint::Cyan => seq!['\x1B', '[', '3', '6', 'm'],
        Tint::DimWhite => seq!['\x1B', '[', '2', ';', '3', '7', 'm'],
    }
}

/// `text` with `code` put again behind every reset sequence inside it, so
/// that a reset in the middle does not end the colour.
pub open spec fn reinstated(text: Seq<char>, code: Seq<char>) -> Seq<char>
    decreases text.len(),
{
    if text.len() == 0 {
        text
    } else if reset_code().is_prefix_of(text) {
        reset_code() + code + reinstated(text.skip(4), code)
    } else {
        seq![text[0]] + reinstated(text.skip(1), code)
    }
}

/// `text` marked up in `tint`.
pub open spec fn marked_up(text: Seq<char>, tint: Tint) -> Seq<char> {
    tint_code(tint) + reinstated(text, tint_code(tint)) + reset_code()
}

/// `text` as it is shown: marked up in `tint` where colours are `lit`, and
/// unchanged where they are not.
pub open spec fn tinted(text: Seq<char>, tint: Tint, lit: bool) -> Seq<char> {
    if lit {
        marked_up(text, tint)
    } else {
        text
    }
}

/// `out` is one of the two forms in which `text` in `tint` can be shown.
pub open spec fn painted(out: Seq<char>, text: Seq<char>, tint: Tint) -> bool {
    exists|lit: bool| out == #[trigger] tinted(text, tint, lit)
}

/// Calls `colored`'s `Colorize::red` on `text` and renders the result with
/// its `Display` impl. Trusted: the output is `text` itself while colours
/// are switched off, and otherwise `ESC[31m`, the text with the colour
/// reinstated behind inner resets, and `ESC[0m`.
#[verifier::external_body]
fn paint_red(text: &str) -> (out: String)
    ensures
        painted(out@, text@, Tint::Red),
{
    text.red().to_string()
}

/// Calls `colored`'s `Colorize::yellow` on `text` and renders the result.
/// Trusted: as for red, with `ESC[33m`.
#[verifier::external_body]
fn paint_yellow(text: &str) -> (out: String)
    ensures
        painted(out@, text@, Tint::Yellow),
{
    text.yellow().to_string()
}

/// Calls `colored`'s `Colorize::green` on `text` and renders the result.
/// Trusted: as for red, with `ESC[32m`.
#[verifier::external_body]
fn paint_green(text: &str) -> (out: String)
    ensures
        painted(out@, text@, Tint::Green),
{
    text.green().to_string()
}

/// Calls `colored`'s `Colorize::cyan` on `text` and renders the result.
/// Trusted: as for red, with `ESC[36m`.
#[verifier::external_body]
fn paint_cyan(text: &str) -> (out: String)
    ensures
        painted(out@, text@, Tint::Cyan),
{
    text.cyan().to_string()
}

/// Calls `colored`'s `Colorize::white` and then `Colorize::dimmed` on
/// `text` and renders the result. Trusted: as for red, with `ESC[2;37m`
/// (the style's code, a semicolon, the colour's code).
#[verifier::external_body]
fn paint_dim_white(text: &str) -> (out: String)
    ensures
        painted(out@, text@, Tint::DimWhite),
{
    text.white().dimmed().to_string()
}

/// Calls `colored`'s `Colorize::normal` on `text` and renders the result.
/// Trusted: a string without colour or style is always rendered as the text
/// itself.
#[verifier::external_body]
fn paint_normal(text: &str) -> (out: String)
    ensures
        out@ == text@,
{
    text.normal().to_string()
}

/// `text` in `tint`, as the terminal settings have it.
pub fn paint(text: &str, tint: Tint) -> (out: String)
    ensures
        painted(out@, text@, tint),
{
    match tint {
        Tint::Red => paint_red(text),
        Tint::Yellow => paint_yellow(text),
        Tint::Green => paint_green(text),
        Tint::Cyan => paint_cyan(text),
        Tint::DimWhite => paint_dim_white(text),
    }
}

/// `text` without colour, whatever the terminal settings are.
pub fn plain(text: &str) -> (out: String)
    ensures
        out@ == text@,
{
    paint_normal(text)
}

/// Text without an escape character is marked up by putting the tint's code
/// before it and the reset code behind it.
pub proof fn lemma_marked_up_simple(text: Seq<char>, tint: Tint)
    requires
        !text.contains('\x1B'),
    ensures
        marked_up(text, tint) == tint_code(tint) + text + reset_code(),
{
    lemma_reinstated_simple(text, tint_code(tint));
}

/// Colour adds nothing but its codes: a character that stands in neither
/// code occurs in the shown text as often as in the text itself, where that
/// holds no escape character.
pub proof fn lemma_tinted_count(text: Seq<char>, tint: Tint, lit: bool, c: char)
    requires
        !text.contains('\x1B'),
        !tint_code(tint).contains(c),
        !reset_code().contains(c),
    ensures
        count_of(tinted(text, tint, lit), c) == count_of(text, c),
{
    if lit {
        lemma_marked_up_simple(text, tint);
        lemma_count_absent(tint_code(tint), c);
        lemma_count_absent(reset_code(), c);
        lemma_count_concat(tint_code(tint), text, c);
        lemma_count_concat(tint_code(tint) + text, reset_code(), c);
    }
}

/// Text without an escape character holds no reset sequence, so nothing is
/// reinstated in it.
pub proof fn lemma_reinstated_simple(text: Seq<char>, code: Seq<char>)
    requires
        !text.contains('\x1B'),
    ensures
        reinstated(text, code) == text,
    decreases text.len(),
{
    if text.len() > 0 {
        assert(text.contains(text[0]));
        if reset_code().is_prefix_of(text) {
            assert(text.subrange(0, 4)[0] == reset_code()[0]);
        }
        let rest = text.skip(1);
        assert forall|c: char| rest.contains(c) implies text.contains(c) by {
            let i = choose|i: int| 0 <= i < rest.len() && rest[i] == c;
            assert(text[i + 1] == c);
        }
        lemma_reinstated_simple(rest, code);
        assert(seq![text[0]] + rest =~= text);
    }
}

} // verus!
