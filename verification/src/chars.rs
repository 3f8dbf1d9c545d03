//! Character classifier: pure predicates over a single byte for the ABNF
//! core rules of RFC 5234 and the derived `tchar` / `field-vchar` classes
//! of RFC 7230.

use vstd::prelude::*;

verus! {

/// ALPHA: an upper- or lower-case letter.
pub open spec fn is_alpha_spec(c: u8) -> bool {
    (0x41 <= c && c <= 0x5a) || (0x61 <= c && c <= 0x7a)
}

/// BIT: the digit `0` or `1`.
pub open spec fn is_bit_spec(c: u8) -> bool {
    c == 0x30 || c == 0x31
}

/// CHAR: any 7-bit US-ASCII byte, excluding NUL.
pub open spec fn is_char_spec(c: u8) -> bool {
    0x01 <= c && c <= 0x7f
}

/// CR: carriage return.
pub open spec fn is_cr_spec(c: u8) -> bool {
    c == 0x0d
}

/// CRLF: the Internet-standard newline, a CR byte followed by an LF byte.
/// A two-byte window is required: no single byte can be a CRLF.
pub open spec fn is_crlf_spec(first: u8, second: u8) -> bool {
    first == 0x0d && second == 0x0a
}

/// CTL: a control byte.
pub open spec fn is_ctl_spec(c: u8) -> bool {
    c <= 0x1f || c == 0x7f
}

/// DIGIT: a decimal digit.
pub open spec fn is_digit_spec(c: u8) -> bool {
    0x30 <= c && c <= 0x39
}

/// DQUOTE: a double quote.
pub open spec fn is_dquote_spec(c: u8) -> bool {
    c == 0x22
}

/// HEXDIG: a hexadecimal digit.
pub open spec fn is_hexdig_spec(c: u8) -> bool {
    is_digit_spec(c) || (0x41 <= c && c <= 0x46) || (0x61 <= c && c <= 0x66)
}

/// HTAB: a horizontal tab.
pub open spec fn is_htab_spec(c: u8) -> bool {
    c == 0x09
}

/// LF: a linefeed.
pub open spec fn is_lf_spec(c: u8) -> bool {
    c == 0x0a
}

/// OCTET: any 8-bit byte; trivially true, present for completeness.
pub open spec fn is_octet_spec(c: u8) -> bool {
    true
}

/// SP: a space.
pub open spec fn is_sp_spec(c: u8) -> bool {
    c == 0x20
}

/// VCHAR: a visible (printing) ASCII byte.
pub open spec fn is_vchar_spec(c: u8) -> bool {
    0x21 <= c && c <= 0x7e
}

/// WSP: a space or a horizontal tab.
pub open spec fn is_wsp_spec(c: u8) -> bool {
    is_sp_spec(c) || is_htab_spec(c)
}

/// tchar: a token character, the alphabet of a field-name; any VCHAR
/// except the delimiters.
pub open spec fn is_tchar_spec(c: u8) -> bool {
    is_alpha_spec(c) || is_digit_spec(c) || c == 0x21 || c == 0x23 || c == 0x24 || c == 0x25
        || c == 0x26 || c == 0x27 || c == 0x2a || c == 0x2b || c == 0x2d || c == 0x2e || c == 0x5e
        || c == 0x5f || c == 0x60 || c == 0x7c || c == 0x7e
}

/// obs-text: a high-bit byte, historically used for non-ASCII header
/// content; accepted in a field-value but never decoded.
pub open spec fn is_obs_text_spec(c: u8) -> bool {
    c >= 0x80
}

/// field-vchar: a byte permitted inside a field-value besides whitespace:
/// a visible ASCII byte or an obs-text byte.
pub open spec fn is_field_vchar_spec(c: u8) -> bool {
    is_vchar_spec(c) || is_obs_text_spec(c)
}

pub fn is_alpha(c: u8) -> (r: bool)
    ensures
        r == is_alpha_spec(c),
{
    (0x41 <= c && c <= 0x5a) || (0x61 <= c && c <= 0x7a)
}

pub fn is_bit(c: u8) -> (r: bool)
    ensures
        r == is_bit_spec(c),
{
    c == 0x30 || c == 0x31
}

pub fn is_char(c: u8) -> (r: bool)
    ensures
        r == is_char_spec(c),
{
    0x01 <= c && c <= 0x7f
}

pub fn is_cr(c: u8) -> (r: bool)
    ensures
        r == is_cr_spec(c),
{
    c == 0x0d
}

pub fn is_crlf(first: u8, second: u8) -> (r: bool)
    ensures
        r == is_crlf_spec(first, second),
{
    first == 0x0d && second == 0x0a
}

pub fn is_ctl(c: u8) -> (r: bool)
    ensures
        r == is_ctl_spec(c),
{
    c <= 0x1f || c == 0x7f
}

pub fn is_digit(c: u8) -> (r: bool)
    ensures
        r == is_digit_spec(c),
{
    0x30 <= c && c <= 0x39
}

pub fn is_dquote(c: u8) -> (r: bool)
    ensures
        r == is_dquote_spec(c),
{
    c == 0x22
}

pub fn is_hexdig(c: u8) -> (r: bool)
    ensures
        r == is_hexdig_spec(c),
{
    is_digit(c) || (0x41 <= c && c <= 0x46) || (0x61 <= c && c <= 0x66)
}

pub fn is_htab(c: u8) -> (r: bool)
    ensures
        r == is_htab_spec(c),
{
    c == 0x09
}

pub fn is_lf(c: u8) -> (r: bool)
    ensures
        r == is_lf_spec(c),
{
    c == 0x0a
}

pub fn is_octet(c: u8) -> (r: bool)
    ensures
        r == is_octet_spec(c),
{
    true
}

pub fn is_sp(c: u8) -> (r: bool)
    ensures
        r == is_sp_spec(c),
{
    c == 0x20
}

pub fn is_vchar(c: u8) -> (r: bool)
    ensures
        r == is_vchar_spec(c),
{
    0x21 <= c && c <= 0x7e
}

pub fn is_wsp(c: u8) -> (r: bool)
    ensures
        r == is_wsp_spec(c),
{
    c == 0x20 || c == 0x09
}

pub fn is_tchar(c: u8) -> (r: bool)
    ensures
        r == is_tchar_spec(c),
{
    is_alpha(c) || is_digit(c) || c == 0x21 || c == 0x23 || c == 0x24 || c == 0x25 || c == 0x26
        || c == 0x27 || c == 0x2a || c == 0x2b || c == 0x2d || c == 0x2e || c == 0x5e || c == 0x5f
        || c == 0x60 || c == 0x7c || c == 0x7e
}

pub fn is_obs_text(c: u8) -> (r: bool)
    ensures
        r == is_obs_text_spec(c),
{
    c >= 0x80
}

pub fn is_field_vchar(c: u8) -> (r: bool)
    ensures
        r == is_field_vchar_spec(c),
{
    is_vchar(c) || is_obs_text(c)
}

} // verus!
