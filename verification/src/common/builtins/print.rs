//! The built-in function `format`: text with placeholders in braces, each
//! filled with an argument.
//!
//! A placeholder is `{}`, or holds the number of the argument before a
//! colon and, behind the colon, how the argument is written: a width, a
//! padding and `<` or `>` before the width to push the text to the left or
//! to the right, and `b`, `o`, `x` or `X` to write a number in binary, octal
//! or hexadecimal digits. Two braces in a row stand for one.

use std::rc::Rc;
use vstd::prelude::*;

use crate::common::number::{number_repeat_count, repeat_count};
use crate::common::object::Object;
use crate::text::{chars_of, repeat_text, repeated};

verus! {

/// How a number is written.
#[derive(Debug, Clone, Copy, PartialEq, Eq, Structural)]
pub enum NumberFormat {
    /// In binary digits.
    Boolean,
    /// As any other value.
    Plain,
    Octal,
    /// In hexadecimal digits, the letters small.
    Hex,
    /// In hexadecimal digits, the letters capital.
    HexaDecimal,
}

/// To which side the text is pushed in its width.
#[derive(Debug, Clone, Copy, PartialEq, Eq, Structural)]
pub enum SpecJustify {
    /// Numbers to the right, everything else to the left.
    Default,
    Left,
    Right,
}

/// The pieces of text that a call of `format` wrote, in their order.
pub struct Collector(pub Vec<String>);

/// The views of a list of strings.
pub open spec fn pieces(list: Seq<String>) -> Seq<Seq<char>> {
    Seq::new(list.len(), |i: int| list[i]@)
}

/// The character that stands for a digit below sixteen.
pub open spec fn radix_digit(d: nat, capital: bool) -> char {
    if d == 0 {
        '0'
    } else if d == 1 {
        '1'
    } else if d == 2 {
        '2'
    } else if d == 3 {
        '3'
    } else if d == 4 {
        '4'
    } else if d == 5 {
        '5'
    } else if d == 6 {
        '6'
    } else if d == 7 {
        '7'
    } else if d == 8 {
        '8'
    } else if d == 9 {
        '9'
    } else if d == 10 {
        if capital {
            'A'
        } else {
            'a'
        }
    } else if d == 11 {
        if capital {
            'B'
        } else {
            'b'
        }
    } else if d == 12 {
        if capital {
            'C'
        } else {
            'c'
        }
    } else if d == 13 {
        if capital {
            'D'
        } else {
            'd'
        }
    } else if d == 14 {
        if capital {
            'E'
        } else {
            'e'
        }
    } else {
        if capital {
            'F'
        } else {
            'f'
        }
    }
}

/// A number written in the digits of a base from two to sixteen, without
/// leading zeros.
pub open spec fn radix_text(n: nat, base: nat, capital: bool) -> Seq<char>
    decreases n,
{
    if base < 2 || n < base || n / base >= n {
        seq![radix_digit(n, capital)]
    } else {
        radix_text(n / base, base, capital).push(radix_digit(n % base, capital))
    }
}

fn radix_digit_char(d: usize, capital: bool) -> (c: char)
    requires
        d < 16,
    ensures
        c == radix_digit(d as nat, capital),
{
    if d == 0 {
        '0'
    } else if d == 1 {
        '1'
    } else if d == 2 {
        '2'
    } else if d == 3 {
        '3'
    } else if d == 4 {
        '4'
    } else if d == 5 {
        '5'
    } else if d == 6 {
        '6'
    } else if d == 7 {
        '7'
    } else if d == 8 {
        '8'
    } else if d == 9 {
        '9'
    } else if d == 10 {
        if capital {
            'A'
        } else {
            'a'
        }
    } else if d == 11 {
        if capital {
            'B'
        } else {
            'b'
        }
    } else if d == 12 {
        if capital {
            'C'
        } else {
            'c'
        }
    } else if d == 13 {
        if capital {
            'D'
        } else {
            'd'
        }
    } else if d == 14 {
        if capital {
            'E'
        } else {
            'e'
        }
    } else {
        if capital {
            'F'
        } else {
            'f'
        }
    }
}

/// Appends `n` in the digits of `base`.
pub fn push_radix(s: &mut String, n: usize, base: usize, capital: bool)
    requires
        2 <= base <= 16,
    ensures
        final(s)@ == old(s)@ + radix_text(n as nat, base as nat, capital),
    decreases n,
{
    if n >= base {
        assert(n / base < n) by (nonlinear_arith)
            requires
                2 <= base <= n,
        ;
        push_radix(s, n / base, base, capital);
        s.push(radix_digit_char(n % base, capital));
        assert(radix_text(n as nat, base as nat, capital) == radix_text(
            (n / base) as nat,
            base as nat,
            capital,
        ).push(radix_digit((n % base) as nat, capital)));
        assert(s@ =~= old(s)@ + radix_text(n as nat, base as nat, capital));
    } else {
        s.push(radix_digit_char(n, capital));
        assert(s@ =~= old(s)@ + radix_text(n as nat, base as nat, capital));
    }
}

/// What reading text as a whole number gives. The text is read from the
/// left, and the first character that cannot be taken decides.
pub enum Parsed {
    Number(usize),
    /// The text is empty.
    Empty,
    /// The text holds something that is no digit, or only a sign.
    InvalidDigit,
    /// With this digit the number is beyond what a `usize` holds.
    TooLarge,
}

/// The whole number that the digits from `from` on add to `so_far`, as
/// text is read from the left.
pub open spec fn digits_from(text: Seq<char>, from: int, so_far: nat) -> Parsed
    decreases text.len() - from,
{
    if from < 0 || from >= text.len() {
        if so_far <= usize::MAX {
            Parsed::Number(so_far as usize)
        } else {
            Parsed::TooLarge
        }
    } else if !('0' <= text[from] <= '9') {
        Parsed::InvalidDigit
    } else if so_far * 10 + (text[from] as nat - '0' as nat) > usize::MAX {
        Parsed::TooLarge
    } else {
        digits_from(text, from + 1, (so_far * 10 + (text[from] as nat - '0' as nat)) as nat)
    }
}

/// Text read as a whole number that is zero or more: digits, with a plus
/// sign before them or without.
pub open spec fn parsed_number(text: Seq<char>) -> Parsed {
    if text.len() == 0 {
        Parsed::Empty
    } else if text[0] == '+' || text[0] == '-' {
        if text.len() == 1 || text[0] == '-' {
            Parsed::InvalidDigit
        } else {
            digits_from(text, 1, 0)
        }
    } else {
        digits_from(text, 0, 0)
    }
}

/// Reads text as a whole number that is zero or more.
pub fn parse_number(text: &Vec<char>) -> (res: Parsed)
    ensures
        res == parsed_number(text@),
{
    if text.len() == 0 {
        return Parsed::Empty;
    }
    let mut i: usize = 0;
    if text[0] == '+' || text[0] == '-' {
        if text.len() == 1 || text[0] == '-' {
            return Parsed::InvalidDigit;
        }
        i = 1;
    }
    let mut value: usize = 0;
    while i < text.len()
        invariant
            i <= text@.len(),
            digits_from(text@, i as int, value as nat) == parsed_number(text@),
        decreases text@.len() - i,
    {
        let c = text[i];
        if !(c >= '0' && c <= '9') {
            return Parsed::InvalidDigit;
        }
        let d = ((c as u32) - ('0' as u32)) as usize;
        if value > (usize::MAX - d) / 10 {
            assert(value * 10 + d > usize::MAX) by (nonlinear_arith)
                requires
                    value > (usize::MAX - d) / 10,
                    d < 10,
            ;
            return Parsed::TooLarge;
        }
        assert(value * 10 + d <= usize::MAX) by (nonlinear_arith)
            requires
                value <= (usize::MAX - d) / 10,
                d < 10,
        ;
        value = value * 10 + d;
        i = i + 1;
    }
    Parsed::Number(value)
}

/// How one placeholder asks for its argument to be written.
pub struct Spec {
    pub padding: Seq<char>,
    pub justify: SpecJustify,
    pub width: Seq<char>,
    pub num_fmt: NumberFormat,
}

/// The message for a value that is no number where a number is to be
/// written in the digits of a base.
pub open spec fn not_a_number(num_fmt: NumberFormat) -> Seq<char> {
    match num_fmt {
        NumberFormat::Boolean => "Can't format non-number as binary"@,
        NumberFormat::Octal => "Can't format non-number as octal"@,
        _ => "Can't format non-number as hex"@,
    }
}

/// An argument as text, before it is fitted into its width: a number in the
/// digits of the base asked for, by its whole part; else the text under
/// which the argument is shown.
pub open spec fn plain_text(num_fmt: NumberFormat, obj: Object, shown: Seq<char>) -> Result<
    Seq<char>,
    Seq<char>,
> {
    match num_fmt {
        NumberFormat::Plain => Ok(shown),
        _ => match obj {
            Object::Number(bits) => Ok(
                radix_text(
                    repeat_count(bits) as nat,
                    match num_fmt {
                        NumberFormat::Boolean => 2,
                        NumberFormat::Octal => 8,
                        _ => 16,
                    },
                    num_fmt == NumberFormat::HexaDecimal,
                ),
            ),
            _ => Err(not_a_number(num_fmt)),
        },
    }
}

/// The text of an argument fitted into its width. The width counts the
/// bytes of the text; what is missing is filled with the padding, once for
/// each missing byte, on the side away from which the text is pushed. No
/// padding means blanks. A width that is no number is an error.
pub open spec fn fitted_text(spec: Spec, obj: Object, shown: Seq<char>) -> Result<
    Seq<char>,
    Seq<char>,
> {
    let width = if spec.width.len() == 0 {
        Parsed::Number(0)
    } else {
        parsed_number(spec.width)
    };
    match width {
        Parsed::Number(width) => match plain_text(spec.num_fmt, obj, shown) {
            Err(msg) => Err(msg),
            Ok(text) => {
                let bytes = vstd::utf8::encode_utf8(text).len();
                let missing: nat = if width > bytes {
                    (width - bytes) as nat
                } else {
                    0
                };
                let padding = if spec.padding.len() == 0 {
                    seq![' ']
                } else {
                    spec.padding
                };
                let left = if spec.justify == SpecJustify::Default {
                    !(obj is Number)
                } else {
                    spec.justify == SpecJustify::Left
                };
                if left {
                    Ok(text + repeated(padding, missing))
                } else {
                    Ok(repeated(padding, missing) + text)
                }
            },
        },
        _ => Err("Failed to parse width"@),
    }
}

/// The message of a number that could not be read.
pub open spec fn parse_message(p: Parsed) -> Seq<char> {
    match p {
        Parsed::Empty => "cannot parse integer from empty string"@,
        Parsed::InvalidDigit => "invalid digit found in string"@,
        _ => "number too large to fit in target type"@,
    }
}

/// Where the reading of a format text stands.
pub struct FormatState {
    /// The place in the format text.
    pub at: int,
    /// The argument that the next placeholder without a number takes.
    pub next_arg: int,
    /// Inside a placeholder.
    pub in_spec: bool,
    /// Behind the colon of a placeholder.
    pub in_spec_format: bool,
    pub spec: Spec,
    /// The number of the argument, as written in the placeholder.
    pub index: Seq<char>,
    /// What was written so far.
    pub out: Seq<Seq<char>>,
}

impl FormatState {
    /// The state at the start of a format text.
    pub open spec fn start() -> FormatState {
        FormatState {
            at: 0,
            next_arg: 1,
            in_spec: false,
            in_spec_format: false,
            spec: Spec {
                padding: Seq::empty(),
                justify: SpecJustify::Default,
                width: Seq::empty(),
                num_fmt: NumberFormat::Plain,
            },
            index: Seq::empty(),
            out: Seq::empty(),
        }
    }
}

/// The argument that a placeholder takes: the one that its number names,
/// counted from the first behind the format text, or the next in turn.
pub open spec fn argument_of(s: FormatState, count: int) -> Result<int, Seq<char>> {
    if s.next_arg >= count {
        Err("positional arguments exceeded the count"@)
    } else if s.index.len() == 0 {
        Ok(s.next_arg)
    } else {
        match parsed_number(s.index) {
            Parsed::Number(n) => if n + 1 >= count {
                Err("positional argument index exceeded the count"@)
            } else {
                Ok(n + 1)
            },
            other => Err(parse_message(other)),
        }
    }
}

/// What `format` writes from the state `s` on: the pieces of text, or the
/// message of the first error. `args` are the arguments with the format
/// text first, and `shown` the texts under which they are shown.
pub open spec fn formatted_from(
    parts: Seq<char>,
    args: Seq<Rc<Object>>,
    shown: Seq<Seq<char>>,
    s: FormatState,
) -> Result<Seq<Seq<char>>, Seq<char>>
    decreases parts.len() - s.at,
{
    if s.at < 0 || s.at >= parts.len() {
        Ok(s.out)
    } else {
        let curr = parts[s.at];
        let next = if s.at + 1 < parts.len() {
            parts[s.at + 1]
        } else {
            '\0'
        };
        if curr == '{' {
            if next == '{' {
                formatted_from(
                    parts,
                    args,
                    shown,
                    FormatState { at: s.at + 2, out: s.out.push(seq!['{']), ..s },
                )
            } else {
                formatted_from(parts, args, shown, FormatState { at: s.at + 1, in_spec: true, ..s })
            }
        } else if curr == '}' {
            if next == '}' {
                formatted_from(
                    parts,
                    args,
                    shown,
                    FormatState { at: s.at + 2, out: s.out.push(seq!['}']), ..s },
                )
            } else {
                match argument_of(s, args.len() as int) {
                    Err(msg) => Err(msg),
                    Ok(which) => match fitted_text(s.spec, *args[which], shown[which]) {
                        Err(msg) => Err(msg),
                        Ok(text) => formatted_from(
                            parts,
                            args,
                            shown,
                            FormatState {
                                at: s.at + 1,
                                next_arg: if s.index.len() == 0 {
                                    s.next_arg + 1
                                } else {
                                    s.next_arg
                                },
                                out: s.out.push(text),
                                ..FormatState::start()
                            },
                        ),
                    },
                }
            }
        } else if s.in_spec {
            if curr == ':' {
                formatted_from(
                    parts,
                    args,
                    shown,
                    FormatState { at: s.at + 1, in_spec_format: true, ..s },
                )
            } else if s.in_spec_format && (curr == '<' || curr == '>') {
                formatted_from(
                    parts,
                    args,
                    shown,
                    FormatState {
                        at: s.at + 1,
                        spec: Spec {
                            padding: s.spec.width,
                            width: Seq::empty(),
                            justify: if curr == '<' {
                                SpecJustify::Left
                            } else {
                                SpecJustify::Right
                            },
                            ..s.spec
                        },
                        ..s
                    },
                )
            } else if curr == 'b' {
                formatted_from(
                    parts,
                    args,
                    shown,
                    FormatState {
                        at: s.at + 1,
                        spec: Spec { num_fmt: NumberFormat::Boolean, ..s.spec },
                        ..s
                    },
                )
            } else if curr == 'o' {
                formatted_from(
                    parts,
                    args,
                    shown,
                    FormatState {
                        at: s.at + 1,
                        spec: Spec { num_fmt: NumberFormat::Octal, ..s.spec },
                        ..s
                    },
                )
            } else if curr == 'x' {
                formatted_from(
                    parts,
                    args,
                    shown,
                    FormatState {
                        at: s.at + 1,
                        spec: Spec { num_fmt: NumberFormat::Hex, ..s.spec },
                        ..s
                    },
                )
            } else if curr == 'X' {
                formatted_from(
                    parts,
                    args,
                    shown,
                    FormatState {
                        at: s.at + 1,
                        spec: Spec { num_fmt: NumberFormat::HexaDecimal, ..s.spec },
                        ..s
                    },
                )
            } else if s.in_spec_format {
                formatted_from(
                    parts,
                    args,
                    shown,
                    FormatState {
                        at: s.at + 1,
                        spec: Spec {
                            width: s.spec.width.push(curr),
                            num_fmt: NumberFormat::Plain,
                            ..s.spec
                        },
                        ..s
                    },
                )
            } else {
                formatted_from(
                    parts,
                    args,
                    shown,
                    FormatState {
                        at: s.at + 1,
                        index: s.index.push(curr),
                        spec: Spec { num_fmt: NumberFormat::Plain, ..s.spec },
                        ..s
                    },
                )
            }
        } else {
            formatted_from(
                parts,
                args,
                shown,
                FormatState { at: s.at + 1, out: s.out.push(seq![curr]), ..s },
            )
        }
    }
}

/// What `format` gives for its arguments: the pieces of the text written,
/// or the message of the first error. The first argument is the format
/// text.
pub open spec fn formatted(args: Seq<Rc<Object>>, shown: Seq<Seq<char>>) -> Result<
    Seq<Seq<char>>,
    Seq<char>,
> {
    if args.len() == 0 {
        Err("takes a minimum of one argument"@)
    } else {
        match *args[0] {
            Object::Str(fmt) => formatted_from(fmt@, args, shown, FormatState::start()),
            _ => Err("Expected a string or format specifier"@),
        }
    }
}

/// Whether what `format` gave is what `formatted` says.
pub open spec fn format_agrees(res: Result<Collector, String>, want: Result<
    Seq<Seq<char>>,
    Seq<char>,
>) -> bool {
    match res {
        Ok(collector) => want == Ok::<Seq<Seq<char>>, Seq<char>>(pieces(collector.0@)),
        Err(msg) => want == Err::<Seq<Seq<char>>, Seq<char>>(msg@),
    }
}

/// A string of the characters of a list.
fn text_of(chars: &Vec<char>) -> (text: String)
    ensures
        text@ == chars@,
{
    let mut text = String::new();
    let mut i: usize = 0;
    while i < chars.len()
        invariant
            i <= chars@.len(),
            text@ == chars@.take(i as int),
        decreases chars@.len() - i,
    {
        text.push(chars[i]);
        i = i + 1;
        assert(text@ =~= chars@.take(i as int));
    }
    assert(chars@.take(chars@.len() as int) =~= chars@);
    text
}

/// Writes one argument as its placeholder asks.
fn format_obj(
    collector: &mut Collector,
    padding: &Vec<char>,
    justify: SpecJustify,
    width_str: &Vec<char>,
    num_fmt: NumberFormat,
    obj: &Object,
    shown: &str,
) -> (res: Result<(), String>)
    ensures
        match res {
            Ok(_) => fitted_text(
                Spec { padding: padding@, justify, width: width_str@, num_fmt },
                *obj,
                shown@,
            ) matches Ok(text) && pieces(final(collector).0@) == pieces(old(collector).0@).push(
                text,
            ),
            Err(msg) => fitted_text(
                Spec { padding: padding@, justify, width: width_str@, num_fmt },
                *obj,
                shown@,
            ) == Err::<Seq<char>, Seq<char>>(msg@) && final(collector).0@ == old(collector).0@,
        },
{
    let width: usize = if width_str.len() == 0 {
        0
    } else {
        match parse_number(width_str) {
            Parsed::Number(n) => n,
            _ => {
                return Err("Failed to parse width".to_owned());
            },
        }
    };
    let formatted = match num_fmt {
        NumberFormat::Plain => shown.to_owned(),
        _ => match obj {
            Object::Number(num) => {
                let mut text = String::new();
                let whole = number_repeat_count(*num);
                match num_fmt {
                    NumberFormat::Boolean => push_radix(&mut text, whole, 2, false),
                    NumberFormat::Octal => push_radix(&mut text, whole, 8, false),
                    NumberFormat::Hex => push_radix(&mut text, whole, 16, false),
                    _ => push_radix(&mut text, whole, 16, true),
                }
                assert(text@ =~= plain_text(num_fmt, *obj, shown@)->Ok_0);
                text
            },
            _ => {
                return Err(
                    match num_fmt {
                        NumberFormat::Boolean => "Can't format non-number as binary".to_owned(),
                        NumberFormat::Octal => "Can't format non-number as octal".to_owned(),
                        _ => "Can't format non-number as hex".to_owned(),
                    },
                );
            },
        },
    };
    // Blanks are the padding where none is given.
    let padding_text = if padding.len() == 0 {
        let mut blank = String::new();
        blank.push(' ');
        assert(blank@ =~= seq![' ']);
        blank
    } else {
        text_of(padding)
    };
    let bytes = formatted.as_str().as_bytes().len();
    let width_pad = if width > bytes {
        width - bytes
    } else {
        0
    };
    let padded = repeat_text(padding_text.as_str(), width_pad);
    // Numbers go to the right and everything else to the left, unless the
    // placeholder says otherwise.
    let left = match justify {
        SpecJustify::Default => !obj.is_number(),
        SpecJustify::Left => true,
        SpecJustify::Right => false,
    };
    let mut output = String::new();
    if left {
        output.append(formatted.as_str());
        output.append(padded.as_str());
    } else {
        output.append(padded.as_str());
        output.append(formatted.as_str());
    }
    proof {
        assert(output@ =~= fitted_text(
            Spec { padding: padding@, justify, width: width_str@, num_fmt },
            *obj,
            shown@,
        )->Ok_0);
    }
    collector.0.push(output);
    proof {
        assert(pieces(collector.0@) =~= pieces(old(collector).0@).push(output@));
    }
    Ok(())
}

/// The message of a number that could not be read.
fn parse_error(p: &Parsed) -> (msg: String)
    ensures
        msg@ == parse_message(*p),
{
    match p {
        Parsed::Empty => "cannot parse integer from empty string".to_owned(),
        Parsed::InvalidDigit => "invalid digit found in string".to_owned(),
        _ => "number too large to fit in target type".to_owned(),
    }
}

/// Writes a format text with its arguments. The first argument is the
/// format text; `shown` holds, for each argument, the text under which it
/// is shown.
pub fn format_buf(args: &Vec<Rc<Object>>, shown: &Vec<String>) -> (res: Result<Collector, String>)
    requires
        shown@.len() == args@.len(),
    ensures
        format_agrees(res, formatted(args@, pieces(shown@))),
{
    if args.len() == 0 {
        return Err("takes a minimum of one argument".to_owned());
    }
    let parts: Vec<char> = match &*args[0] {
        Object::Str(fmt) => chars_of(fmt.as_str()),
        _ => {
            return Err("Expected a string or format specifier".to_owned());
        },
    };
    let mut collector = Collector(Vec::new());
    let mut idx_fmt: usize = 0;  // place in the format text
    let mut idx_arg: usize = 1;  // the next argument; the format text is the first
    let mut in_spec = false;  // inside '{}'
    let mut in_spec_format = false;  // behind the colon ':'
    let mut curr_spec_just = SpecJustify::Default;
    let mut curr_spec_width: Vec<char> = Vec::new();
    let mut curr_spec_padding: Vec<char> = Vec::new();
    let mut curr_spec_idx: Vec<char> = Vec::new();
    let mut num_fmt = NumberFormat::Plain;
    let ghost wanted = formatted(args@, pieces(shown@));
    proof {
        assert(pieces(collector.0@) =~= Seq::<Seq<char>>::empty());
    }
    while idx_fmt < parts.len()
        invariant
            idx_fmt <= parts@.len() + 1,
            1 <= idx_arg <= args@.len(),
            shown@.len() == args@.len(),
            wanted == formatted(args@, pieces(shown@)),
            wanted == formatted_from(
                parts@,
                args@,
                pieces(shown@),
                FormatState {
                    at: idx_fmt as int,
                    next_arg: idx_arg as int,
                    in_spec,
                    in_spec_format,
                    spec: Spec {
                        padding: curr_spec_padding@,
                        justify: curr_spec_just,
                        width: curr_spec_width@,
                        num_fmt,
                    },
                    index: curr_spec_idx@,
                    out: pieces(collector.0@),
                },
            ),
        decreases parts@.len() + 1 - idx_fmt,
    {
        let curr = parts[idx_fmt];
        let next = if idx_fmt < parts.len() - 1 {
            parts[idx_fmt + 1]
        } else {
            '\0'
        };
        let ghost before = pieces(collector.0@);
        if curr == '{' {
            if next == '{' {
                let mut brace = String::new();
                brace.push('{');
                collector.0.push(brace);
                proof {
                    assert(pieces(collector.0@) =~= before.push(seq!['{']));
                }
                idx_fmt = idx_fmt + 2;
            } else {
                in_spec = true;
                idx_fmt = idx_fmt + 1;
            }
        } else if curr == '}' {
            if next == '}' {
                let mut brace = String::new();
                brace.push('}');
                collector.0.push(brace);
                proof {
                    assert(pieces(collector.0@) =~= before.push(seq!['}']));
                }
                idx_fmt = idx_fmt + 2;
            } else {
                // Now write the argument that the placeholder takes.
                if idx_arg >= args.len() {
                    return Err("positional arguments exceeded the count".to_owned());
                }
                let which = if curr_spec_idx.len() == 0 {
                    idx_arg
                } else {
                    match parse_number(&curr_spec_idx) {
                        Parsed::Number(n) => {
                            if n >= args.len() - 1 {
                                return Err(
                                    "positional argument index exceeded the count".to_owned(),
                                );
                            }
                            n + 1
                        },
                        other => {
                            return Err(parse_error(&other));
                        },
                    }
                };
                match format_obj(
                    &mut collector,
                    &curr_spec_padding,
                    curr_spec_just,
                    &curr_spec_width,
                    num_fmt,
                    &args[which],
                    shown[which].as_str(),
                ) {
                    Ok(_) => {},
                    Err(msg) => {
                        return Err(msg);
                    },
                }
                if curr_spec_idx.len() == 0 {
                    idx_arg = idx_arg + 1;
                }
                in_spec = false;
                in_spec_format = false;
                curr_spec_just = SpecJustify::Default;
                curr_spec_width = Vec::new();
                curr_spec_padding = Vec::new();
                curr_spec_idx = Vec::new();
                num_fmt = NumberFormat::Plain;
                idx_fmt = idx_fmt + 1;
            }
        } else if in_spec {
            if curr == ':' {
                in_spec_format = true;
            } else if in_spec_format && (curr == '<' || curr == '>') {
                // what looked like a width is the padding
                curr_spec_padding = curr_spec_width;
                curr_spec_width = Vec::new();
                curr_spec_just = if curr == '<' {
                    SpecJustify::Left
                } else {
                    SpecJustify::Right
                };
            } else if curr == 'b' {
                num_fmt = NumberFormat::Boolean;
            } else if curr == 'o' {
                num_fmt = NumberFormat::Octal;
            } else if curr == 'x' {
                num_fmt = NumberFormat::Hex;
            } else if curr == 'X' {
                num_fmt = NumberFormat::HexaDecimal;
            } else {
                if in_spec_format {
                    curr_spec_width.push(curr);
                } else {
                    curr_spec_idx.push(curr);
                }
                num_fmt = NumberFormat::Plain;
            }
            idx_fmt = idx_fmt + 1;
        } else {
            // outside a placeholder every character stands for itself
            let mut text = String::new();
            text.push(curr);
            collector.0.push(text);
            proof {
                assert(pieces(collector.0@) =~= before.push(seq![curr]));
            }
            idx_fmt = idx_fmt + 1;
        }
    }
    Ok(collector)
}

impl Collector {
    /// The text that was written: the pieces one after the other.
    pub fn to_string(&self) -> (text: String)
        ensures
            text@ == joined(pieces(self.0@), self.0@.len() as int),
    {
        let mut text = String::new();
        let mut i: usize = 0;
        while i < self.0.len()
            invariant
                i <= self.0@.len(),
                text@ == joined(pieces(self.0@), i as int),
            decreases self.0@.len() - i,
        {
            text.append(self.0[i].as_str());
            i = i + 1;
        }
        text
    }
}

/// The first `n` pieces of text, one after the other.
pub open spec fn joined(list: Seq<Seq<char>>, n: int) -> Seq<char>
    decreases n,
{
    if n <= 0 || n > list.len() {
        Seq::empty()
    } else {
        joined(list, n - 1) + list[n - 1]
    }
}

} // verus!
