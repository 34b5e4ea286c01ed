use mini_kernel::common::{align_up, is_aligned, print_panic_info, strcmp, Argument};

fn render(fmt: &str, args: &[Argument]) -> Vec<char> {
    mini_kernel::common::print(fmt, args)
}

fn render_line(fmt: &str, args: &[Argument]) -> Vec<char> {
    mini_kernel::common::println(fmt, args)
}

fn chars(v: &Vec<char>) -> String {
    v.iter().collect()
}

#[test]
fn print_plain_text() {
    let out = render("hello", &[]);
    assert_eq!(chars(&out), "hello");
}

#[test]
fn print_string_argument() {
    let out = render(
        "\n\nHello %s\n",
        &[Argument::new_string(String::from("World!"))],
    );
    assert_eq!(chars(&out), "\n\nHello World!\n");
}

#[test]
fn print_decimal_values() {
    let out = render(
        "1 + 2 = %d, and %d, and %d",
        &[
            Argument::new_decimal(1 + 2),
            Argument::new_decimal(0),
            Argument::new_decimal(-17),
        ],
    );
    assert_eq!(chars(&out), "1 + 2 = 3, and 0, and -17");
}

#[test]
fn print_decimal_extremes() {
    let out = render(
        "%d %d",
        &[
            Argument::new_decimal(i32::MAX),
            Argument::new_decimal(i32::MIN),
        ],
    );
    assert_eq!(chars(&out), "2147483647 -2147483648");
}

#[test]
fn print_hexadecimal() {
    let out = render("%x", &[Argument::new_hexadecimal(0x1234abcd)]);
    assert_eq!(chars(&out), "1234abcd");
    let out = render("%x", &[Argument::new_hexadecimal(-1)]);
    assert_eq!(chars(&out), "ffffffff");
    let out = render("%x", &[Argument::new_hexadecimal(0)]);
    assert_eq!(chars(&out), "00000000");
}

#[test]
fn print_hexuint_prints_seven_digits() {
    // The unsigned hexadecimal variant has always printed only the low
    // seven digits; it is reachable only by building the variant directly.
    let out = render("%x", &[Argument::HexUInt(0x1234abcd)]);
    assert_eq!(chars(&out), "234abcd");
}

#[test]
fn new_hexuint_builds_plain_uint() {
    // The constructor routes to the plain unsigned variant, so %x
    // complains and %u prints the decimal value.
    let out = render("%x", &[Argument::new_hexuint(5)]);
    assert_eq!(chars(&out), "Argument must be a Hexadecimal type!");
    let out = render("%u", &[Argument::new_hexuint(5)]);
    assert_eq!(chars(&out), "5");
}

#[test]
fn print_uint_values() {
    let out = render(
        "%u %u",
        &[Argument::new_uint(0), Argument::new_uint(4294967295)],
    );
    assert_eq!(chars(&out), "0 4294967295");
}

#[test]
fn print_mismatched_arguments_complain() {
    let out = render("%d", &[Argument::new_uint(7)]);
    assert_eq!(chars(&out), "Argument must be a Decimal type!");
    let out = render("%u", &[Argument::new_decimal(7)]);
    assert_eq!(chars(&out), "Argument must be a UInt type!");
    let out = render("%s", &[Argument::new_decimal(7)]);
    assert_eq!(chars(&out), "Argument must be a String type!");
}

#[test]
fn print_missing_arguments_emit_nothing() {
    let out = render("a%db", &[]);
    assert_eq!(chars(&out), "ab");
}

#[test]
fn print_unknown_directive_emits_nothing() {
    let out = render("a%zb", &[Argument::new_decimal(7)]);
    assert_eq!(chars(&out), "ab");
}

#[test]
fn print_trailing_percent() {
    let out = render("abc%", &[]);
    assert_eq!(chars(&out), "abc");
}

#[test]
fn println_appends_newline() {
    let out = render_line("x=%d", &[Argument::new_decimal(9)]);
    assert_eq!(chars(&out), "x=9\n");
}

#[test]
fn panic_report_with_location_and_message() {
    let out = print_panic_info(
        Some((String::from("kernel.rs"), 42)),
        Some(String::from("out of memory")),
    );
    assert_eq!(
        chars(&out),
        "PANIC!: Panic occurred in file kernel.rs at line 42: out of memory\n"
    );
}

#[test]
fn panic_report_without_location() {
    let out = print_panic_info(None, None);
    assert_eq!(
        chars(&out),
        "PANIC!: Panic occurred but can't get infomation of the location"
    );
}

#[test]
fn strcmp_orders_by_first_difference() {
    assert_eq!(strcmp("abc", "abc"), 0);
    assert_eq!(strcmp("abc", "abd"), -1);
    assert_eq!(strcmp("b", "a"), 1);
}

#[test]
fn strcmp_stops_at_shorter_string() {
    assert_eq!(strcmp("a", "ab"), 0);
    assert_eq!(strcmp("", "xyz"), 0);
}

#[test]
fn align_up_rounds_to_next_multiple() {
    assert_eq!(align_up(5, 4), 8);
    assert_eq!(align_up(8, 4), 8);
    assert_eq!(align_up(0, 4096), 0);
    assert_eq!(align_up(1, 4096), 4096);
}

#[test]
fn is_aligned_checks_remainder() {
    assert!(is_aligned(8192, 4096));
    assert!(!is_aligned(8193, 4096));
}

#[test]
fn argument_accessors_match_variants() {
    assert_eq!(Argument::new_decimal(-3).into_decimal(), Some(&-3));
    assert_eq!(Argument::new_decimal(-3).into_uint(), None);
    assert_eq!(Argument::new_hexadecimal(7).into_hexadecimal(), Some(&7));
    assert_eq!(Argument::new_uint(9).into_uint(), Some(&9));
    assert_eq!(Argument::HexUInt(4).into_hexuint(), Some(&4));
    assert_eq!(
        Argument::new_string(String::from("s")).into_string(),
        Some(&String::from("s"))
    );
}
