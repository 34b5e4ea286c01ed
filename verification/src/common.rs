//! The kernel's console support library: typed format arguments, rendering
//! of format strings to character sequences, and small string/alignment
//! helpers.
//!
//! The firmware console can only emit single characters, so printing
//! walks a format string and emits characters one by one. Here the
//! rendering is a pure function from a format string and its arguments
//! to the sequence of characters that would reach the console; the
//! caller (outside this library) performs the actual output.

use vstd::prelude::*;

verus! {

/// A physical memory address.
pub type PAddr = u32;

/// A virtual memory address.
pub type VAddr = u32;

/// One typed argument for a `%` directive of a format string.
pub enum Argument {
    Decimal(i32),
    Hexadecimal(i32),
    UInt(u32),
    HexUInt(u32),
    String(String),
}

impl Argument {
    pub fn new_decimal(arg: i32) -> (r: Argument)
        ensures
            r == Argument::Decimal(arg),
    {
        Argument::Decimal(arg)
    }

    pub fn new_hexadecimal(arg: i32) -> (r: Argument)
        ensures
            r == Argument::Hexadecimal(arg),
    {
        Argument::Hexadecimal(arg)
    }

    pub fn new_uint(arg: u32) -> (r: Argument)
        ensures
            r == Argument::UInt(arg),
    {
        Argument::UInt(arg)
    }

    /// The console library has always routed hexadecimal unsigned arguments
    /// through the plain unsigned variant, and callers depend on `%u`
    /// accepting them, so this constructor keeps that behaviour.
    pub fn new_hexuint(arg: u32) -> (r: Argument)
        ensures
            r == Argument::UInt(arg),
    {
        Argument::UInt(arg)
    }

    pub fn new_string(arg: String) -> (r: Argument)
        ensures
            r == Argument::String(arg),
    {
        Argument::String(arg)
    }

    pub fn into_decimal(&self) -> (r: Option<&i32>)
        ensures
            match *self {
                Argument::Decimal(v) => r == Some(&v),
                _ => r is None,
            },
    {
        if let Argument::Decimal(inner_val) = self {
            Some(inner_val)
        } else {
            None
        }
    }

    pub fn into_hexadecimal(&self) -> (r: Option<&i32>)
        ensures
            match *self {
                Argument::Hexadecimal(v) => r == Some(&v),
                _ => r is None,
            },
    {
        if let Argument::Hexadecimal(inner_val) = self {
            Some(inner_val)
        } else {
            None
        }
    }

    pub fn into_uint(&self) -> (r: Option<&u32>)
        ensures
            match *self {
                Argument::UInt(v) => r == Some(&v),
                _ => r is None,
            },
    {
        if let Argument::UInt(inner_val) = self {
            Some(inner_val)
        } else {
            None
        }
    }

    pub fn into_hexuint(&self) -> (r: Option<&u32>)
        ensures
            match *self {
                Argument::HexUInt(v) => r == Some(&v),
                _ => r is None,
            },
    {
        if let Argument::HexUInt(inner_val) = self {
            Some(inner_val)
        } else {
            None
        }
    }

    pub fn into_string(&self) -> (r: Option<&String>)
        ensures
            match *self {
                Argument::String(ref s) => r == Some(s),
                _ => r is None,
            },
    {
        if let Argument::String(inner_val) = self {
            Some(inner_val)
        } else {
            None
        }
    }
}

/// The character for one decimal digit.
pub open spec fn digit_char(d: int) -> char {
    if d == 0 {
        '0'
    } else if d == 1 {
        '1'
    } else if d == 2 {
        '2'
    } else if d == 3 {
        '3'
    } else if d == 4 {
        '4'
    } else if d == 5 {
        '5'
    } else if d == 6 {
        '6'
    } else if d == 7 {
        '7'
    } else if d == 8 {
        '8'
    } else {
        '9'
    }
}

/// The character for one hexadecimal digit, lower case.
pub open spec fn hex_digit_char(d: int) -> char {
    if d < 10 {
        digit_char(d)
    } else if d == 10 {
        'a'
    } else if d == 11 {
        'b'
    } else if d == 12 {
        'c'
    } else if d == 13 {
        'd'
    } else if d == 14 {
        'e'
    } else {
        'f'
    }
}

/// The decimal digits of `v`, most significant first, with no leading
/// zeros (a lone zero for 0).
pub open spec fn spec_digits(v: nat) -> Seq<char>
    decreases v,
{
    if v < 10 {
        seq![digit_char(v as int)]
    } else {
        spec_digits(v / 10) + seq![digit_char((v % 10) as int)]
    }
}

/// The rendering of a signed decimal: a minus sign and the digits of the
/// magnitude.
pub open spec fn spec_decimal(v: int) -> Seq<char> {
    if v < 0 {
        seq!['-'] + spec_digits((-v) as nat)
    } else {
        spec_digits(v as nat)
    }
}

/// The lowest `n` hexadecimal digits of `v`, most significant first,
/// zero-padded.
pub open spec fn spec_hex_digits(v: u32, n: nat) -> Seq<char>
    decreases n,
{
    if n == 0 {
        Seq::empty()
    } else {
        seq![hex_digit_char(((v >> (((n - 1) * 4) as u32)) & 0xf) as int)] + spec_hex_digits(
            v,
            (n - 1) as nat,
        )
    }
}

/// What one `%` directive emits for one argument. A mismatched argument
/// degrades to an inline complaint on the console rather than stopping
/// the kernel: only diagnostics are at stake. A hexadecimal signed value
/// prints all eight digits; the unsigned hexadecimal variant has always
/// printed only the low seven, and callers reach it only by building the
/// variant directly.
pub open spec fn spec_arg_output(directive: char, arg: Argument) -> Seq<char> {
    if directive == 'd' {
        match arg {
            Argument::Decimal(v) => spec_decimal(v as int),
            _ => "Argument must be a Decimal type!"@,
        }
    } else if directive == 'x' {
        match arg {
            Argument::Hexadecimal(v) => spec_hex_digits(v as u32, 8),
            Argument::HexUInt(v) => spec_hex_digits(v, 7),
            _ => "Argument must be a Hexadecimal type!"@,
        }
    } else if directive == 'u' {
        match arg {
            Argument::UInt(v) => spec_digits(v as nat),
            _ => "Argument must be a UInt type!"@,
        }
    } else {
        match arg {
            Argument::String(s) => s@,
            _ => "Argument must be a String type!"@,
        }
    }
}

/// The characters a format string and its arguments send to the console:
/// a `%` followed by a directive character consumes one argument and
/// emits its rendering; an unknown directive emits nothing; directives
/// beyond the last argument emit nothing; every other character is
/// emitted as itself.
pub open spec fn spec_print(fmt: Seq<char>, args: Seq<Argument>) -> Seq<char>
    decreases fmt.len(),
{
    if fmt.len() == 0 {
        Seq::empty()
    } else if fmt[0] == '%' {
        if fmt.len() == 1 {
            Seq::empty()
        } else {
            let d = fmt[1];
            if d == 'd' || d == 'x' || d == 'u' || d == 's' {
                if args.len() > 0 {
                    spec_arg_output(d, args[0]) + spec_print(fmt.skip(2), args.drop_first())
                } else {
                    spec_print(fmt.skip(2), args)
                }
            } else {
                spec_print(fmt.skip(2), args)
            }
        }
    } else {
        seq![fmt[0]] + spec_print(fmt.drop_first(), args)
    }
}

/// Rounds `value` up to the next multiple of `align`.
pub fn align_up(value: usize, align: usize) -> (r: usize)
    requires
        align > 0,
        value + align <= usize::MAX,
    ensures
        r % align == 0,
        value <= r < value + align,
{
    let remainder = value % align;
    if remainder == 0 {
        value
    } else {
        proof {
            let q = value as int / align as int;
            vstd::arithmetic::div_mod::lemma_fundamental_div_mod(value as int, align as int);
            assert((q + 1) * (align as int) == q * (align as int) + (align as int))
                by (nonlinear_arith);
            assert((value + (align - remainder)) as int == (q + 1) * align);
            vstd::arithmetic::div_mod::lemma_mod_multiples_basic(q + 1, align as int);
        }
        value + (align - remainder)
    }
}

/// Whether `value` is a multiple of `align`.
pub fn is_aligned(value: usize, align: usize) -> (r: bool)
    requires
        align > 0,
    ensures
        r == (value % align == 0),
{
    value % align == 0
}

/// The character for decimal digit `d`.
fn digit_char_of(d: u32) -> (c: char)
    ensures
        c == digit_char(d as int),
{
    if d == 0 {
        '0'
    } else if d == 1 {
        '1'
    } else if d == 2 {
        '2'
    } else if d == 3 {
        '3'
    } else if d == 4 {
        '4'
    } else if d == 5 {
        '5'
    } else if d == 6 {
        '6'
    } else if d == 7 {
        '7'
    } else if d == 8 {
        '8'
    } else {
        '9'
    }
}

/// The character for hexadecimal digit `d`, lower case.
fn hex_digit_char_of(d: u32) -> (c: char)
    ensures
        c == hex_digit_char(d as int),
{
    if d < 10 {
        digit_char_of(d)
    } else if d == 10 {
        'a'
    } else if d == 11 {
        'b'
    } else if d == 12 {
        'c'
    } else if d == 13 {
        'd'
    } else if d == 14 {
        'e'
    } else {
        'f'
    }
}

/// Appends every character of `s` to `out`.
fn push_str(out: &mut Vec<char>, s: &str)
    ensures
        final(out)@ == old(out)@ + s@,
{
    let len = s.unicode_len();
    let mut i: usize = 0;
    while i < len
        invariant
            i <= len,
            len == s@.len(),
            out@ == old(out)@ + s@.take(i as int),
        decreases len - i,
    {
        out.push(s.get_char(i));
        proof {
            assert(s@.take(i as int).push(s@[i as int]) =~= s@.take(i + 1));
        }
        i += 1;
    }
    proof {
        assert(s@.take(len as int) =~= s@);
    }
}

/// Appends the decimal digits of `v` to `out`, most significant first.
fn push_digits(out: &mut Vec<char>, v: u32)
    ensures
        final(out)@ == old(out)@ + spec_digits(v as nat),
    decreases v,
{
    if v < 10 {
        out.push(digit_char_of(v));
    } else {
        push_digits(out, v / 10);
        out.push(digit_char_of(v % 10));
    }
}

/// Appends the lowest `n` hexadecimal digits of `v` to `out`, most
/// significant first.
fn push_hex_digits(out: &mut Vec<char>, v: u32, n: u32)
    requires
        n <= 8,
    ensures
        final(out)@ == old(out)@ + spec_hex_digits(v, n as nat),
    decreases n,
{
    if n > 0 {
        let nibble = (v >> ((n - 1) * 4)) & 0xf;
        out.push(hex_digit_char_of(nibble));
        push_hex_digits(out, v, n - 1);
        proof {
            assert(out@ =~= old(out)@ + spec_hex_digits(v, n as nat));
        }
    }
}

/// Emits one `%d` argument: a signed decimal, or a complaint when the
/// argument is not a decimal.
pub fn print_decimal(out: &mut Vec<char>, arg: &Argument)
    ensures
        final(out)@ == old(out)@ + spec_arg_output('d', *arg),
{
    if let Some(inner_val) = arg.into_decimal() {
        let value: i32 = *inner_val;
        if value < 0 {
            out.push('-');
            let magnitude = (-(value as i64)) as u32;
            push_digits(out, magnitude);
            proof {
                assert(out@ =~= old(out)@ + spec_decimal(value as int));
            }
        } else {
            push_digits(out, value as u32);
        }
    } else {
        push_str(out, "Argument must be a Decimal type!");
    }
}

/// Emits one `%x` argument: eight hexadecimal digits for a signed value,
/// the low seven for the unsigned hexadecimal variant, or a complaint.
pub fn print_hex(out: &mut Vec<char>, arg: &Argument)
    ensures
        final(out)@ == old(out)@ + spec_arg_output('x', *arg),
{
    if let Some(inner_val) = arg.into_hexadecimal() {
        push_hex_digits(out, *inner_val as u32, 8);
    } else if let Some(inner_val) = arg.into_hexuint() {
        push_hex_digits(out, *inner_val, 7);
    } else {
        push_str(out, "Argument must be a Hexadecimal type!");
    }
}

/// Emits one `%u` argument: an unsigned decimal, or a complaint.
pub fn print_uint(out: &mut Vec<char>, arg: &Argument)
    ensures
        final(out)@ == old(out)@ + spec_arg_output('u', *arg),
{
    if let Some(inner_val) = arg.into_uint() {
        push_digits(out, *inner_val);
    } else {
        push_str(out, "Argument must be a UInt type!");
    }
}

/// Emits one `%s` argument: the string itself, or a complaint.
pub fn print_string(out: &mut Vec<char>, arg: &Argument)
    ensures
        final(out)@ == old(out)@ + spec_arg_output('s', *arg),
{
    if let Some(inner_val) = arg.into_string() {
        push_str(out, inner_val.as_str());
    } else {
        push_str(out, "Argument must be a String type!");
    }
}

/// Renders a format string with its arguments into the sequence of
/// characters the console would receive.
pub fn print(string: &str, args: &[Argument]) -> (out: Vec<char>)
    ensures
        out@ == spec_print(string@, args@),
{
    let len = string.unicode_len();
    let mut out: Vec<char> = Vec::new();
    let mut i: usize = 0;
    let mut ai: usize = 0;
    proof {
        assert(string@.skip(0) =~= string@);
        assert(args@.skip(0) =~= args@);
    }
    while i < len
        invariant
            i <= len,
            ai <= args@.len(),
            len == string@.len(),
            spec_print(string@, args@) == out@ + spec_print(
                string@.skip(i as int),
                args@.skip(ai as int),
            ),
        decreases len - i,
    {
        let ghost rest = string@.skip(i as int);
        let ghost rest_args = args@.skip(ai as int);
        let c = string.get_char(i);
        proof {
            assert(rest[0] == string@[i as int]);
        }
        if c == '%' {
            if i + 1 < len {
                let d = string.get_char(i + 1);
                proof {
                    assert(rest[1] == string@[i + 1]);
                    assert(rest.skip(2) =~= string@.skip(i + 2));
                }
                if d == 'd' || d == 'x' || d == 'u' || d == 's' {
                    if ai < args.len() {
                        proof {
                            assert(rest_args[0] == args@[ai as int]);
                            assert(rest_args.drop_first() =~= args@.skip(ai + 1));
                        }
                        if d == 'd' {
                            print_decimal(&mut out, &args[ai]);
                        } else if d == 'x' {
                            print_hex(&mut out, &args[ai]);
                        } else if d == 'u' {
                            print_uint(&mut out, &args[ai]);
                        } else {
                            print_string(&mut out, &args[ai]);
                        }
                        ai += 1;
                    } else {
                        proof {
                            assert(rest_args.len() == 0);
                        }
                    }
                }
                i += 2;
            } else {
                proof {
                    assert(rest.len() == 1);
                    assert(string@.skip(len as int).len() == 0);
                }
                i += 1;
            }
        } else {
            proof {
                assert(rest.drop_first() =~= string@.skip(i + 1));
            }
            out.push(c);
            i += 1;
        }
    }
    proof {
        assert(string@.skip(len as int).len() == 0);
    }
    out
}

/// Renders a format string with its arguments and a trailing newline.
pub fn println(string: &str, args: &[Argument]) -> (out: Vec<char>)
    ensures
        out@ == spec_print(string@, args@) + seq!['\n'],
{
    let mut out = print(string, args);
    out.push('\n');
    out
}

/// The console report for a kernel panic: the source location when it is
/// known, and the message when there is one.
pub open spec fn spec_panic_report(
    location: Option<(String, i32)>,
    message: Option<String>,
) -> Seq<char> {
    (match location {
        Some((file, line)) => spec_print(
            "PANIC!: Panic occurred in file %s at line %d"@,
            seq![Argument::String(file), Argument::Decimal(line)],
        ),
        None => spec_print(
            "PANIC!: Panic occurred but can't get infomation of the location"@,
            Seq::empty(),
        ),
    }) + (match message {
        Some(m) => spec_print(": %s"@, seq![Argument::String(m)]) + seq!['\n'],
        None => Seq::<char>::empty(),
    })
}

/// Renders the panic report: the location line when the panic site is
/// known, followed by the message when one is available.
pub fn print_panic_info(location: Option<(String, i32)>, message: Option<String>) -> (out: Vec<
    char,
>)
    ensures
        out@ == spec_panic_report(location, message),
{
    let ghost gloc = location;
    let mut out = match location {
        Some((file, line)) => {
            let mut args: Vec<Argument> = Vec::new();
            args.push(Argument::new_string(file));
            args.push(Argument::new_decimal(line));
            proof {
                let pair = gloc->0;
                assert(args@ =~= seq![Argument::String(pair.0), Argument::Decimal(pair.1)]);
            }
            print("PANIC!: Panic occurred in file %s at line %d", args.as_slice())
        },
        None => {
            let args: Vec<Argument> = Vec::new();
            proof {
                assert(args@ =~= Seq::<Argument>::empty());
            }
            print("PANIC!: Panic occurred but can't get infomation of the location", args.as_slice())
        },
    };
    match message {
        Some(m) => {
            let ghost gm = m;
            let mut args: Vec<Argument> = Vec::new();
            args.push(Argument::new_string(m));
            proof {
                assert(args@ =~= seq![Argument::String(gm)]);
            }
            let mut tail = println(": %s", args.as_slice());
            out.append(&mut tail);
        },
        None => {},
    }
    out
}

/// The result of comparing two character sequences position by position,
/// stopping at the end of the shorter one: 0 when no position differs,
/// otherwise the sign of the first differing pair.
pub open spec fn spec_strcmp(s1: Seq<char>, s2: Seq<char>) -> int
    decreases s1.len(),
{
    if s1.len() == 0 || s2.len() == 0 {
        0
    } else if s1[0] != s2[0] {
        if s1[0] > s2[0] {
            1int
        } else {
            -1int
        }
    } else {
        spec_strcmp(s1.drop_first(), s2.drop_first())
    }
}

/// Compares two strings character by character over their common prefix.
/// Strings that agree on the shorter one's length compare as equal, which
/// matches the console library's historical behaviour.
pub fn strcmp(s1: &str, s2: &str) -> (r: i32)
    ensures
        r as int == spec_strcmp(s1@, s2@),
{
    let n1 = s1.unicode_len();
    let n2 = s2.unicode_len();
    let n = if n1 < n2 { n1 } else { n2 };
    let mut i: usize = 0;
    proof {
        assert(s1@.skip(0) =~= s1@);
        assert(s2@.skip(0) =~= s2@);
    }
    while i < n
        invariant
            i <= n,
            n == if n1 < n2 { n1 } else { n2 },
            n1 == s1@.len(),
            n2 == s2@.len(),
            forall|k: int| 0 <= k < i ==> s1@[k] == s2@[k],
            spec_strcmp(s1@, s2@) == spec_strcmp(s1@.skip(i as int), s2@.skip(i as int)),
        decreases n - i,
    {
        let c1 = s1.get_char(i);
        let c2 = s2.get_char(i);
        if c1 != c2 {
            proof {
                assert(s1@.skip(i as int)[0] == s1@[i as int]);
                assert(s2@.skip(i as int)[0] == s2@[i as int]);
            }
            return if c1 > c2 { 1 } else { -1 };
        }
        proof {
            assert(s1@.skip(i as int).drop_first() =~= s1@.skip(i + 1));
            assert(s2@.skip(i as int).drop_first() =~= s2@.skip(i + 1));
        }
        i += 1;
    }
    proof {
        if n1 < n2 {
            assert(s1@.skip(n as int).len() == 0);
        } else {
            assert(s2@.skip(n as int).len() == 0);
        }
    }
    0
}

} // verus!
