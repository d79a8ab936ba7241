use qd2::cli::{
    parse_head_layout, BusArgs, Cli, Command, ConnectArgs, DoctorArgs, EntryFault, InspectArgs,
};
use qd2::numeral::{parse_i32, parse_u32, push_decimal, push_hexadecimal, push_signed};
use qd2::text::{char_is_blank, chars_of, split, split_once, trim};

#[test]
fn parses_pairs_and_ignores_blanks() {
    assert_eq!(
        parse_head_layout(Some(" 0:0,0; 1:2560,0 ;")).unwrap(),
        vec![(0, 0, 0), (1, 2560, 0)]
    );
    assert!(parse_head_layout(None).unwrap().is_empty());
    assert!(parse_head_layout(Some("  ")).unwrap().is_empty());
}

#[test]
fn rejects_malformed_entries() {
    assert!(parse_head_layout(Some("1=2,3")).is_err());
    assert!(parse_head_layout(Some("1:2")).is_err());
    assert!(parse_head_layout(Some("x:2,3")).is_err());
}

fn refusal(spec: &str) -> (EntryFault, String, String) {
    let error = parse_head_layout(Some(spec)).unwrap_err();
    let message = error.message();
    (error.fault, error.entry, message)
}

#[test]
fn says_what_is_wrong_with_the_first_bad_entry() {
    assert_eq!(
        refusal("0:0,0; 1=2,3 ;x:1,1"),
        (
            EntryFault::Shape,
            "1=2,3".to_string(),
            "head layout entry `1=2,3` must look like ID:X,Y".to_string()
        )
    );
    assert_eq!(
        refusal("1:2"),
        (
            EntryFault::Shape,
            "1:2".to_string(),
            "head layout entry `1:2` must look like ID:X,Y".to_string()
        )
    );
    assert_eq!(
        refusal("-1:x,y"),
        (
            EntryFault::ConsoleId,
            "-1:x,y".to_string(),
            "bad console id in `-1:x,y`".to_string()
        )
    );
    assert_eq!(
        refusal("1:2147483648,y"),
        (
            EntryFault::X,
            "1:2147483648,y".to_string(),
            "bad x in `1:2147483648,y`".to_string()
        )
    );
    assert_eq!(
        refusal("1:0,1,2"),
        (
            EntryFault::Y,
            "1:0,1,2".to_string(),
            "bad y in `1:0,1,2`".to_string()
        )
    );
}

#[test]
fn layout_takes_signs_and_the_ends_of_the_ranges() {
    assert_eq!(
        parse_head_layout(Some("4294967295:-2147483648,2147483647;+3:+7,-0")).unwrap(),
        vec![(4294967295, i32::MIN, i32::MAX), (3, 7, 0)]
    );
    assert!(parse_head_layout(Some("4294967296:0,0")).is_err());
}

#[test]
fn layouts_join_and_blanks_do_not_count() {
    let a = "2:10,-20; 7 :\t1 , 2\u{3000}";
    let b = "\u{a0}0:5,6";
    let mut both = parse_head_layout(Some(a)).unwrap();
    both.extend(parse_head_layout(Some(b)).unwrap());
    let joined = format!(" {a};{b} ");
    assert_eq!(parse_head_layout(Some(&joined)).unwrap(), both);
    assert_eq!(both, vec![(2, 10, -20), (7, 1, 2), (0, 5, 6)]);
    assert!(parse_head_layout(Some(" ; ;; ")).unwrap().is_empty());
}

#[test]
fn written_layout_reads_back() {
    let heads = vec![(0, 0, 0), (17, -2560, 1440), (4294967295, i32::MIN, i32::MAX)];
    let mut text = String::new();
    for (id, x, y) in &heads {
        if !text.is_empty() {
            text.push(';');
        }
        push_decimal(&mut text, u64::from(*id));
        text.push(':');
        push_signed(&mut text, i64::from(*x));
        text.push(',');
        push_signed(&mut text, i64::from(*y));
    }
    assert_eq!(text, "0:0,0;17:-2560,1440;4294967295:-2147483648,2147483647");
    assert_eq!(parse_head_layout(Some(&text)).unwrap(), heads);
}

#[test]
fn blanks_are_those_of_unicode() {
    for code in 0..=0x10_ffffu32 {
        if let Some(c) = char::from_u32(code) {
            assert_eq!(char_is_blank(c), c.is_whitespace(), "{code:#x}");
        }
    }
}

#[test]
fn text_is_cut_as_the_standard_library_cuts_it() {
    for s in ["", " ", "a", " a b\u{2003}", "\u{feff} x", "a;b;;c", ";", "h\u{e9}:\u{1f600};"] {
        assert_eq!(trim(s), s.trim());
        assert_eq!(split(s, ';'), s.split(';').collect::<Vec<_>>());
        assert_eq!(split_once(s, ';'), s.split_once(';'));
        assert_eq!(split_once(s, ':'), s.split_once(':'));
        assert_eq!(chars_of(s), s.chars().collect::<Vec<_>>());
    }
}

#[test]
fn numbers_are_read_as_the_standard_library_reads_them() {
    for s in [
        "", "+", "-", "0", "00", "+0", "-0", "7", "+7", "-7", "++7", "+-7", "--7", " 7", "7 ",
        "1_0", "0x1", "a", "4294967295", "4294967296", "2147483647", "2147483648", "-2147483648",
        "-2147483649", "00000000000000000000000000000000012", "99999999999999999999999999",
        "-99999999999999999999999999", "\u{661}",
    ] {
        assert_eq!(parse_u32(s), s.parse::<u32>().ok(), "{s}");
        assert_eq!(parse_i32(s), s.parse::<i32>().ok(), "{s}");
    }
}

#[test]
fn numbers_are_written_as_the_standard_library_writes_them() {
    for n in [0u64, 9, 10, 15, 16, 255, 256, 4_294_967_295, u64::MAX] {
        let mut out = String::from("x");
        push_decimal(&mut out, n);
        assert_eq!(out, format!("x{n}"));
        let mut out = String::from("0x");
        push_hexadecimal(&mut out, n);
        assert_eq!(out, format!("{n:#x}"));
    }
    for n in [0i64, 5, -5, i64::MIN, i64::MAX] {
        let mut out = String::new();
        push_signed(&mut out, n);
        assert_eq!(out, format!("{n}"));
    }
}

#[test]
fn arguments_lend_the_address_of_the_bus() {
    let bus = BusArgs { address: Some("unix:path=/tmp/bus".to_string()) };
    let none = BusArgs { address: None };
    let inspect = InspectArgs { bus: bus.clone(), vm: None };
    let doctor = DoctorArgs { bus: bus.clone(), vm: Some("vm".to_string()) };
    let connect = ConnectArgs {
        bus,
        vm: None,
        console: Some(1),
        hotkeys: None,
        fullscreen: false,
        undecorated: true,
        dmabuf_partial_updates: false,
        head_layout: None,
    };
    assert_eq!(inspect.address(), Some("unix:path=/tmp/bus"));
    assert_eq!(doctor.address(), Some("unix:path=/tmp/bus"));
    assert_eq!(connect.address(), Some("unix:path=/tmp/bus"));
    assert_eq!(InspectArgs { bus: none.clone(), vm: None }.address(), None);
    assert_eq!(DoctorArgs { bus: none.clone(), vm: None }.address(), None);
    assert_eq!(ConnectArgs { bus: none, ..connect.clone() }.address(), None);
    let cli = Cli { verbose: true, command: Command::Connect(connect) };
    assert!(cli.verbose && matches!(cli.command, Command::Connect(_)));
}
