use posix_tools::find::printf::{format_printf, format_time_default, format_time_strftime, octal_string,
    printf_directive_value, FileFacts, PrintfInfo, Stamp};

fn epoch() -> Stamp {
    Stamp { secs: 0, nanos: 0, offset: 0 }
}

fn info() -> PrintfInfo {
    PrintfInfo {
        path: "./dir/file.txt".to_string(),
        start_path: ".".to_string(),
        depth: 2,
        facts: Some(FileFacts {
            size: 1234,
            blocks: 3,
            mode: 0o100644,
            mode_symbolic: "-rw-r--r--".to_string(),
            uid: 1000,
            user: Some("alice".to_string()),
            gid: 100,
            group: None,
            sparseness: "0.1".to_string(),
            accessed: Some(epoch()),
            changed: Stamp { secs: 86_400 + 3_661, nanos: 5, offset: 3_600 },
            modified: Some(Stamp { secs: -1, nanos: 0, offset: 0 }),
            born: None,
        }),
        ids: Some((7, 42, 1)),
        link_target: String::new(),
        fstype: "ext4".to_string(),
        type_char: Some('f'),
        target_type_char: Some('f'),
    }
}

#[test]
fn printf_plain_directives() {
    let i = info();
    assert_eq!(format_printf("%p|%f|%h|%P|%H|%d", &i), "./dir/file.txt|file.txt|./dir|dir/file.txt|.|2");
    assert_eq!(format_printf("%s %k %b %m %M", &i), "1234 2 3 644 -rw-r--r--");
    assert_eq!(format_printf("%u %U %g %G", &i), "alice 1000 100 100");
    assert_eq!(format_printf("%i %n %D %F %y %Y %S", &i), "42 1 7 ext4 f f 0.1");
}

#[test]
fn printf_widths_and_flags() {
    let i = info();
    assert_eq!(format_printf("[%6d][%-6d][%06d][%.3d]", &i), "[     2][2     ][000002][2]");
    assert_eq!(format_printf("%%|%q|%", &i), "%|%q|%");
}

#[test]
fn printf_escapes() {
    let i = info();
    assert_eq!(format_printf("a\\tb\\n", &i), "a\tb\n");
    assert_eq!(format_printf("\\101\\60x\\z", &i), "A0x\\z");
    assert_eq!(format_printf("keep\\cdrop", &i), "keep");
    assert_eq!(format_printf("end\\", &i), "end\\");
}

#[test]
fn printf_without_metadata() {
    let mut i = info();
    i.facts = None;
    i.ids = None;
    assert_eq!(format_printf("%s %m %M %u %t %Ak", &i), "0 ? ?????????? ? ? ?");
}

#[test]
fn printf_times() {
    let i = info();
    assert_eq!(format_printf("%a", &i), "Thu Jan  1 00:00:00 1970");
    assert_eq!(format_printf("%CH:%CM:%CS %Cd/%Cm/%CY %Cj %Cw", &i), "02:01:01 02/01/1970 002 5");
    assert_eq!(format_printf("%T@ %C@", &i), "-1 90061.000000005");
    assert_eq!(format_printf("%Bk %A", &i), "? %A");
}

#[test]
fn strftime_characters() {
    let noon = Stamp { secs: 12 * 3600, nanos: 0, offset: 0 };
    assert_eq!(format_time_strftime(&noon, 'I'), "01");
    assert_eq!(format_time_strftime(&epoch(), 'I'), "01");
    assert_eq!(format_time_strftime(&epoch(), 'l'), " 1");
    assert_eq!(format_time_strftime(&noon, 'p'), "PM");
    assert_eq!(format_time_strftime(&epoch(), 'P'), "am");
    assert_eq!(format_time_strftime(&epoch(), 'y'), "70");
    assert_eq!(format_time_strftime(&epoch(), 'D'), "01/01/70");
    assert_eq!(format_time_strftime(&epoch(), 'q'), "%q");
    assert_eq!(format_time_default(&epoch()), "Thu Jan  1 00:00:00 1970");
}

#[test]
fn octal_digits() {
    assert_eq!(octal_string(0), "0");
    assert_eq!(octal_string(0o755), "755");
}

#[test]
fn directive_reads_the_next_character_only_for_times() {
    let i = info();
    assert_eq!(printf_directive_value('T', Some('Y'), &i), (Some("1969".to_string()), true));
    assert_eq!(printf_directive_value('T', None, &i), (None, false));
    assert_eq!(printf_directive_value('p', Some('x'), &i), (Some("./dir/file.txt".to_string()), false));
    assert_eq!(printf_directive_value('z', None, &i), (None, false));
}
