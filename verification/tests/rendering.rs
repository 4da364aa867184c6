use dwmblocks::status::StatusHandler;
use dwmblocks::text::{render, trim};

#[test]
fn trim_removes_outer_whitespace_only() {
    assert_eq!(trim("  42%\n"), "42%");
    assert_eq!(trim(" a  b\tc "), "a  b\tc");
    assert_eq!(trim("plain"), "plain");
}

#[test]
fn trim_of_blank_input_is_empty() {
    assert_eq!(trim(""), "");
    assert_eq!(trim(" \t\r\n"), "");
    assert_eq!(trim("\u{a0}\u{2028}\u{3000}"), "");
}

#[test]
fn trim_covers_unicode_whitespace() {
    assert_eq!(trim("\u{a0}42\u{2009}"), "42");
    assert_eq!(trim("\u{1680}\u{205f}a\u{00a0}b\u{85}\u{202f}"), "a\u{00a0}b");
    // Exactly what str::trim of std removes.
    assert_eq!(trim("\u{a0}42\u{2009}"), "\u{a0}42\u{2009}".trim());
}

#[test]
fn render_applies_decoration_verbatim() {
    assert_eq!(render("| ", "  42%\n", " "), "| 42% ");
}

#[test]
fn render_keeps_interior_whitespace() {
    assert_eq!(render("[", "  a b\n\tc  ", "]"), "[a b\n\tc]");
}

#[test]
fn join_of_empty_registry_is_empty() {
    let handler = StatusHandler::new(" | ");
    assert_eq!(handler.update(), "");
}

#[test]
fn join_of_single_block_has_no_separator() {
    let mut handler = StatusHandler::new(" | ");
    let idx = handler.add_block("<", ">", 1, "one").unwrap();
    handler.record_output(idx, "text", 0, 0);
    assert_eq!(handler.update(), "<text>");
}

#[test]
fn join_puts_separator_between_consecutive_blocks_only() {
    let mut handler = StatusHandler::new("-");
    for script in ["a", "b", "c"] {
        handler.add_block("", "", 1, script).unwrap();
    }
    handler.record_output(0, "r0", 0, 0);
    handler.record_output(1, "r1", 0, 0);
    handler.record_output(2, "r2", 0, 0);
    assert_eq!(handler.update(), "r0-r1-r2");
}

#[test]
fn fresh_blocks_join_as_empty_slots() {
    let mut handler = StatusHandler::new("-");
    handler.add_block("", "", 1, "a").unwrap();
    handler.add_block("", "", 1, "b").unwrap();
    assert_eq!(handler.update(), "-");
}

#[test]
fn record_output_touches_only_its_slot() {
    let mut handler = StatusHandler::new("/");
    handler.add_block("", "", 1, "a").unwrap();
    handler.add_block("", "", 1, "b").unwrap();
    handler.record_output(0, "first", 0, 0);
    handler.record_output(1, "second", 0, 0);
    handler.record_output(0, "changed", 0, 0);
    assert_eq!(handler.rendered_text(0).as_str(), "changed");
    assert_eq!(handler.rendered_text(1).as_str(), "second");
}
