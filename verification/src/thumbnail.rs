//! What the thumbnail route decides: which file a frame is taken from, how
//! wide it is scaled, how the transcoder is called, and which bytes go out.
//! Running the transcoder is the caller's work.

use vstd::prelude::*;
use vstd::string::StringExecFns;
use crate::config::RootConfig;
use crate::text::chars_of;

verus! {

/// The width of a frame where the request names none that can be read.
pub const DEFAULT_FRAME_WIDTH: u32 = 1280;

/// An ASCII decimal digit.
pub open spec fn is_digit(c: char) -> bool {
    '0' <= c <= '9'
}

/// The value of a decimal digit.
pub open spec fn digit_value(c: char) -> nat {
    (c as u8 - 0x30) as nat
}

/// Every character of the text is a decimal digit.
pub open spec fn all_digits(s: Seq<char>) -> bool {
    forall|i: int| 0 <= i < s.len() ==> is_digit(#[trigger] s[i])
}

/// The number that a text of decimal digits writes.
pub open spec fn digits_value(s: Seq<char>) -> nat
    decreases s.len(),
{
    if s.len() == 0 {
        0
    } else {
        digits_value(s.drop_last()) * 10 + digit_value(s.last())
    }
}

/// The text without a `+` at its front.
pub open spec fn without_plus(s: Seq<char>) -> Seq<char> {
    if s.len() > 0 && s[0] == '+' {
        s.skip(1)
    } else {
        s
    }
}

/// The number that a text writes in decimal, with or without a `+` before
/// its digits; `None` where the text has no digit, holds anything else, or
/// writes a number beyond 32 bits.
pub open spec fn parsed_u32(s: Seq<char>) -> Option<u32> {
    let digits = without_plus(s);
    if digits.len() > 0 && all_digits(digits) && digits_value(digits) <= u32::MAX {
        Some(digits_value(digits) as u32)
    } else {
        None
    }
}

/// The width asked for, or the default where the parameter is missing or
/// is no number.
pub open spec fn width_of(param: Option<Seq<char>>) -> u32 {
    match param {
        Some(text) => match parsed_u32(text) {
            Some(width) => width,
            None => DEFAULT_FRAME_WIDTH,
        },
        None => DEFAULT_FRAME_WIDTH,
    }
}

/// The character of a decimal digit.
pub open spec fn digit_char(d: nat) -> char {
    (0x30 + d) as u8 as char
}

/// A number in decimal, without leading zeros.
pub open spec fn decimal(n: nat) -> Seq<char>
    decreases n,
{
    if n < 10 {
        seq![digit_char(n)]
    } else {
        decimal(n / 10).push(digit_char(n % 10))
    }
}

/// The file that a frame is taken from: the root directory, a `/`, and the
/// file as the request names it. The name is taken as it is; it does not
/// pass through the resolver.
pub open spec fn source_path(root: Seq<char>, file: Seq<char>) -> Seq<char> {
    root.push('/') + file
}

/// The scaling filter for a frame of the given width, its height following
/// from the width.
pub open spec fn scale_filter_text(width: u32) -> Seq<char> {
    "scale="@ + decimal(width as nat) + ":-1"@
}

/// The arguments with which the transcoder is called to write one frame of
/// `source`, taken at `seek` and scaled to `width`, to its standard output.
pub open spec fn transcoder_arguments(seek: Seq<char>, source: Seq<char>, width: u32) -> Seq<
    Seq<char>,
> {
    seq![
        "-timelimit"@,
        "24"@,
        "-loglevel"@,
        "error"@,
        "-an"@,
        "-noautorotate"@,
        "-ss"@,
        seek,
        "-i"@,
        source,
        "-vf"@,
        scale_filter_text(width),
        "-frames:v"@,
        "1"@,
        "-f"@,
        "image2"@,
        "-"@,
    ]
}

/// How a run of the transcoder ended.
pub enum TranscoderRun {
    /// It ran to its end, with success or without, and wrote these bytes.
    Finished { success: bool, stdout: Vec<u8> },
    /// It could not be waited for.
    Failed,
}

/// The bytes that answer a thumbnail request: what the transcoder wrote
/// where it succeeded and wrote anything, else the placeholder.
pub open spec fn frame_of(run: TranscoderRun, placeholder: Seq<u8>) -> Seq<u8> {
    match run {
        TranscoderRun::Finished { success, stdout } => if success && stdout@.len() > 0 {
            stdout@
        } else {
            placeholder
        },
        TranscoderRun::Failed => placeholder,
    }
}

/// The value of the digits read so far is no more than that of all of them.
pub proof fn lemma_digits_value_grows(s: Seq<char>, i: int)
    requires
        0 <= i <= s.len(),
    ensures
        digits_value(s.take(i)) <= digits_value(s),
    decreases s.len(),
{
    if i == s.len() {
        assert(s.take(i) =~= s);
    } else {
        let init = s.drop_last();
        assert(init.take(i) =~= s.take(i));
        lemma_digits_value_grows(init, i);
    }
}

/// Reads a number in decimal, as `parsed_u32` says.
pub fn parse_u32(text: &str) -> (r: Option<u32>)
    ensures
        r == parsed_u32(text@),
{
    let v = chars_of(text);
    let n: usize = v.len();
    let first: usize = if n > 0 && v[0] == '+' {
        1
    } else {
        0
    };
    let ghost digits = without_plus(v@);
    assert(digits =~= v@.skip(first as int));
    if first == n {
        return None;
    }
    let mut value: u64 = 0;
    let mut i: usize = first;
    while i < n
        invariant
            first <= i <= n == v@.len(),
            digits == v@.skip(first as int),
            digits == without_plus(text@),
            all_digits(digits.take(i - first)),
            value == digits_value(digits.take(i - first)),
            value <= u32::MAX,
        decreases n - i,
    {
        let c = v[i];
        let ghost before = digits.take(i - first);
        let ghost now = digits.take(i - first + 1);
        proof {
            assert(digits[i - first] == c);
            assert(now.drop_last() =~= before);
            assert(now.last() == c);
        }
        if !(c >= '0' && c <= '9') {
            assert(!is_digit(digits[i - first]));
            return None;
        }
        let d: u64 = (c as u8 - 0x30) as u64;
        value = value * 10 + d;
        proof {
            assert forall|k: int| 0 <= k < now.len() implies is_digit(#[trigger] now[k]) by {
                if k < before.len() {
                    assert(now[k] == before[k]);
                }
            }
        }
        if value > 0xffff_ffff {
            proof {
                lemma_digits_value_grows(digits, i - first + 1);
                assert(digits_value(now) == value);
            }
            return None;
        }
        i += 1;
    }
    assert(digits.take(n - first) =~= digits);
    Some(value as u32)
}

/// The width of the frame for the request's width parameter.
pub fn frame_width(param: Option<&str>) -> (width: u32)
    ensures
        width == width_of(
            match param {
                Some(text) => Some(text@),
                None => None,
            },
        ),
{
    match param {
        Some(text) => match parse_u32(text) {
            Some(width) => width,
            None => DEFAULT_FRAME_WIDTH,
        },
        None => DEFAULT_FRAME_WIDTH,
    }
}

/// Appends `n` in decimal to `out`.
fn push_decimal(out: &mut String, n: u32)
    ensures
        final(out)@ == old(out)@ + decimal(n as nat),
    decreases n,
{
    if n >= 10 {
        push_decimal(out, n / 10);
    }
    let d: u8 = (n % 10) as u8;
    out.push((0x30 + d) as char);
    assert(out@ =~= old(out)@ + decimal(n as nat));
}

/// The file that a frame is taken from.
pub fn frame_source_path(root: &RootConfig, file: &str) -> (path: String)
    ensures
        path@ == source_path(root.root(), file@),
{
    let mut path = root.root_dir().to_string();
    path.push('/');
    path.append(file);
    path
}

/// The scaling filter for a frame of the given width.
pub fn scale_filter(width: u32) -> (text: String)
    ensures
        text@ == scale_filter_text(width),
{
    let mut text = "scale=".to_string();
    push_decimal(&mut text, width);
    text.append(":-1");
    text
}

/// The arguments with which the transcoder is called.
pub fn frame_arguments(seek: &str, source: &str, width: u32) -> (args: Vec<String>)
    ensures
        args@.map_values(|a: String| a@) == transcoder_arguments(seek@, source@, width),
{
    let mut args: Vec<String> = Vec::new();
    args.push("-timelimit".to_string());
    args.push("24".to_string());
    args.push("-loglevel".to_string());
    args.push("error".to_string());
    args.push("-an".to_string());
    args.push("-noautorotate".to_string());
    args.push("-ss".to_string());
    args.push(seek.to_string());
    args.push("-i".to_string());
    args.push(source.to_string());
    args.push("-vf".to_string());
    args.push(scale_filter(width));
    args.push("-frames:v".to_string());
    args.push("1".to_string());
    args.push("-f".to_string());
    args.push("image2".to_string());
    args.push("-".to_string());
    assert(args@.map_values(|a: String| a@) =~= transcoder_arguments(seek@, source@, width));
    args
}

/// The bytes that answer a thumbnail request.
pub fn frame_or_placeholder(run: TranscoderRun, placeholder: &Vec<u8>) -> (bytes: Vec<u8>)
    ensures
        bytes@ == frame_of(run, placeholder@),
{
    match run {
        TranscoderRun::Finished { success, stdout } => {
            if success && stdout.len() > 0 {
                stdout
            } else {
                placeholder.clone()
            }
        },
        TranscoderRun::Failed => placeholder.clone(),
    }
}

} // verus!
