use backtrace_string::filter::{filter_frames, frame_contains_symbol, name_marks, Boundary};
use backtrace_string::frame::{demangle_frame, Frame, Symbol};
use backtrace_string::path::clean_path;
use backtrace_string::render::format_frame_into;
use backtrace_string::report::{format_frames, format_readable};

fn sym(name: Option<&str>, file: Option<&str>, line: Option<u32>, addr: Option<usize>) -> Symbol {
    Symbol {
        name: name.map(|n| n.to_string()),
        filename: file.map(|f| f.to_string()),
        lineno: line,
        addr,
    }
}

fn named(name: &str) -> Frame {
    Frame { symbols: vec![sym(Some(name), Some("src/lib.rs"), Some(1), None)] }
}

fn trace(names: &[&str]) -> Vec<Frame> {
    names.iter().map(|n| named(n)).collect()
}

fn render(index: usize, frame: &Frame) -> String {
    let mut out = String::new();
    format_frame_into(&mut out, index, frame);
    out
}

#[test]
fn registry_marker_is_stripped() {
    assert_eq!(clean_path("/home/u/.cargo/registry/src/github.com-XYZ/a/b"), "a/b");
    assert_eq!(clean_path("/github.com-XYZ/a/b"), "a/b");
}

#[test]
fn only_first_marker_component_counts() {
    assert_eq!(
        clean_path("/r/github.com-1/serde-1.0/src/github.com-2/x.rs"),
        "serde-1.0/src/github.com-2/x.rs"
    );
}

#[test]
fn relative_paths_are_kept() {
    assert_eq!(clean_path("src/lib.rs"), "src/lib.rs");
    assert_eq!(clean_path("github.com-XYZ/a/b"), "github.com-XYZ/a/b");
    assert_eq!(clean_path(""), "");
}

#[test]
fn absolute_paths_without_marker_are_kept() {
    assert_eq!(clean_path("/home/u/x.rs"), "/home/u/x.rs");
    assert_eq!(clean_path("/a/xgithub.com-1/b"), "/a/xgithub.com-1/b");
    assert_eq!(clean_path("/a/github.com/b"), "/a/github.com/b");
}

#[test]
fn marker_must_start_a_component() {
    assert_eq!(clean_path("/a/b-github.com-1/c"), "/a/b-github.com-1/c");
}

#[test]
fn separators_and_dots_are_normalised_after_marker() {
    assert_eq!(clean_path("/r/github.com-1//serde/./src/lib.rs/"), "serde/src/lib.rs");
    assert_eq!(clean_path("/r/github.com-1"), "");
    assert_eq!(clean_path("/r/github.com-1/../x.rs"), "../x.rs");
}

#[test]
fn shortening_is_idempotent() {
    for p in [
        "/home/u/.cargo/registry/src/github.com-XYZ/a/b",
        "/r/github.com-1/github.com-2/c",
        "/home/u/x.rs",
        "src/lib.rs",
        "/r/github.com-1",
        "",
    ] {
        let once = clean_path(p);
        assert_eq!(clean_path(&once), once);
    }
}

#[test]
fn start_markers() {
    assert!(name_marks(Boundary::Start, "panic_fmt"));
    assert!(!name_marks(Boundary::Start, "core::panicking::panic_fmt"));
    assert!(name_marks(Boundary::Start, "std::panicking::begin_panic_handler"));
    assert!(name_marks(Boundary::Start, "x::__rust_begin_short_backtrace::y"));
    assert!(!name_marks(Boundary::Start, "my::std::panicking"));
    assert!(!name_marks(Boundary::End, "std::panicking::rust_panic"));
    assert!(name_marks(Boundary::End, "std::sys::backtrace::__rust_begin_short_backtrace"));
}

#[test]
fn frame_markers_look_at_every_named_symbol() {
    let frame = Frame {
        symbols: vec![
            sym(None, None, None, None),
            sym(Some("user::f"), None, None, None),
            sym(Some("std::panicking::try"), None, None, None),
        ],
    };
    assert!(frame_contains_symbol(&frame, Boundary::Start));
    assert!(!frame_contains_symbol(&frame, Boundary::End));
    assert!(!frame_contains_symbol(&Frame { symbols: vec![] }, Boundary::Start));
}

#[test]
fn filter_without_markers_keeps_everything() {
    let t = trace(&["a", "b", "c"]);
    assert_eq!(filter_frames(&t), (0, 3));
    assert_eq!(filter_frames(&Vec::new()), (0, 0));
}

#[test]
fn filter_drops_both_ends() {
    let t = trace(&[
        "backtrace::capture",
        "std::panicking::begin_panic",
        "panic_fmt",
        "user::inner",
        "user::outer",
        "user::f5",
        "user::f6",
        "user::f7",
        "user::f8",
        "user::f9",
        "std::rt::__rust_begin_short_backtrace",
        "main",
    ]);
    assert_eq!(filter_frames(&t), (3, 10));
}

#[test]
fn filter_start_searches_only_innermost_frames() {
    let mut names = vec!["x"; 12];
    names[10] = "std::panicking::try";
    let t = trace(&names);
    assert_eq!(filter_frames(&t), (0, 12));
    names[9] = "std::panicking::try";
    let t = trace(&names);
    assert_eq!(filter_frames(&t), (10, 12));
}

#[test]
fn filter_end_uses_last_marker() {
    let mut names = vec!["x"; 15];
    names[3] = "__rust_begin_short_backtrace";
    names[13] = "__rust_begin_short_backtrace";
    let t = trace(&names);
    assert_eq!(filter_frames(&t), (4, 13));
}

#[test]
fn filter_end_marker_in_window_is_also_a_start() {
    let t = trace(&["std::panicking::begin_panic", "user::a", "__rust_begin_short_backtrace"]);
    assert_eq!(filter_frames(&t), (0, 2));
}

#[test]
fn filter_conflicting_markers_ignore_start() {
    let t = trace(&["a", "__rust_begin_short_backtrace", "std::panicking::x", "b"]);
    assert_eq!(filter_frames(&t), (0, 1));
    let t = trace(&["a", "__rust_begin_short_backtrace", "b"]);
    assert_eq!(filter_frames(&t), (0, 1));
}

#[test]
fn filter_range_never_inverts() {
    for names in [
        vec!["std::panicking::a"],
        vec!["__rust_begin_short_backtrace"],
        vec!["std::panicking::a", "__rust_begin_short_backtrace"],
        vec!["__rust_begin_short_backtrace", "std::panicking::a"],
    ] {
        let t = trace(&names);
        let (s, e) = filter_frames(&t);
        assert!(s <= e && e <= t.len());
    }
}

#[test]
fn repeated_names_are_shown_once() {
    let frame = Frame {
        symbols: vec![
            sym(Some("f::g"), Some("src/a.rs"), Some(3), None),
            sym(Some("f::g"), Some("src/b.rs"), Some(4), None),
            sym(Some("f::h"), Some("src/c.rs"), Some(5), None),
            sym(Some("f::g"), Some("src/d.rs"), Some(6), None),
        ],
    };
    assert_eq!(
        render(2, &frame),
        "   2: f::g\n          at src/a.rs:3\n          at src/b.rs:4\n      f::h\n          at src/c.rs:5\n      f::g\n          at src/d.rs:6\n"
    );
}

#[test]
fn location_prefers_file_and_line() {
    let frame = Frame { symbols: vec![sym(Some("f"), Some("/home/u/x.rs"), Some(10), Some(0x1234))] };
    assert_eq!(render(0, &frame), "   0: f\n          at /home/u/x.rs:10\n");
}

#[test]
fn location_file_without_line() {
    let frame = Frame { symbols: vec![sym(Some("f"), Some("/x/github.com-1/c/s.rs"), None, Some(7))] };
    assert_eq!(render(0, &frame), "   0: f\n          at c/s.rs\n");
}

#[test]
fn location_address_without_file() {
    let frame = Frame { symbols: vec![sym(Some("f"), None, Some(3), Some(0x7ffe_12ab))] };
    assert_eq!(render(0, &frame), "   0: f\n          at address 0x7ffe12ab\n");
    let frame = Frame { symbols: vec![sym(Some("f"), None, None, Some(0))] };
    assert_eq!(render(0, &frame), "   0: f\n          at address 0x0\n");
}

#[test]
fn location_and_name_unknown() {
    let frame = Frame { symbols: vec![sym(None, None, None, None)] };
    assert_eq!(render(0, &frame), "   0: <unknown>\n          at <unknown>\n");
}

#[test]
fn frame_without_symbols() {
    assert_eq!(render(5, &Frame { symbols: vec![] }), "   5:\n");
}

#[test]
fn wide_indices_are_kept_whole() {
    assert_eq!(render(12345, &Frame { symbols: vec![] }), "12345:\n");
    assert_eq!(render(1000, &Frame { symbols: vec![] }), "1000:\n");
    assert_eq!(render(42, &Frame { symbols: vec![] }), "  42:\n");
}

#[test]
fn three_frames_without_markers() {
    let frames: Vec<Frame> = (0..3)
        .map(|_| Frame { symbols: vec![sym(Some("foo::bar"), Some("/home/u/x.rs"), Some(10), None)] })
        .collect();
    let block = "foo::bar\n          at /home/u/x.rs:10\n";
    let expected = format!("\n   0: {block}   1: {block}   2: {block}");
    assert_eq!(format_frames(&frames), expected);
}

#[test]
fn empty_trace_is_one_newline() {
    assert_eq!(format_frames(&Vec::new()), "\n");
    let t = trace(&["__rust_begin_short_backtrace"]);
    assert_eq!(format_readable(&t), "\n");
}

#[test]
fn report_numbers_kept_frames_from_zero() {
    let t = trace(&["std::panicking::begin_panic", "user::a", "user::b"]);
    assert_eq!(
        format_readable(&t),
        "\n   0: user::a\n          at src/lib.rs:1\n   1: user::b\n          at src/lib.rs:1\n"
    );
}

#[test]
fn names_are_demangled() {
    let frame = Frame {
        symbols: vec![sym(Some("_ZN3foo3barE"), Some("f.rs"), Some(2), None), sym(None, None, None, None)],
    };
    let readable = demangle_frame(&frame);
    assert_eq!(readable.symbols[0].name.as_deref(), Some("foo::bar"));
    assert_eq!(readable.symbols[0].filename.as_deref(), Some("f.rs"));
    assert_eq!(readable.symbols[0].lineno, Some(2));
    assert_eq!(readable.symbols[1].name, None);
    let report = format_frames(&vec![frame]);
    assert_eq!(report, "\n   0: foo::bar\n          at f.rs:2\n      <unknown>\n          at <unknown>\n");
}

#[test]
fn mangled_markers_are_found_after_demangling() {
    let mut frames = vec![named("_ZN3std9panicking11begin_panic17h0123456789abcdefE"), named("_ZN4user4mainE")];
    for _ in 0..8 {
        frames.push(named("_ZN4user3padE"));
    }
    frames.push(named("_ZN3std3sys9backtrace28__rust_begin_short_backtrace17h0123456789abcdefE"));
    frames.push(named("main"));
    let report = format_frames(&frames);
    assert!(report.starts_with("\n   0: user::main\n          at src/lib.rs:1\n   1: user::pad\n"));
    assert!(report.ends_with("   8: user::pad\n          at src/lib.rs:1\n"));
    assert!(!report.contains("panicking"));
    assert!(!report.contains("short_backtrace"));
}
