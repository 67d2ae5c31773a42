use fussel::fault::{Fault, Level, Message, Quote};

#[test]
fn fault_simple() {
    let msg = Message::error("lorem ipsum");
    let fault = Fault::simple(msg);
    assert_eq!(fault.render(), "error: lorem ipsum\n");
}

#[test]
fn fault_quote_file() {
    let fault = Fault {
        msg: Message::error("cannot read file"),
        quote: Quote::File { path: String::from("src/main.rs") },
        hints: vec![],
    };

    let got = fault.render();
    let should_be = "error: cannot read file\n --> src/main.rs\n";

    assert_eq!(got, should_be);
}

#[test]
fn fault_quote_excerpt() {
    let fault = Fault {
        msg: Message::error("tabs should be avoided"),
        quote: Quote::Excerpt {
            path: String::from("src/main.rs"),
            row: 42,
            col_from: 0,
            col_to: 3,
            txt: String::from("    let n = 4711;"),
            msg: Message::bare("tab found here"),
        },
        hints: vec![Message::help("use spaces instead of tabs")],
    };

    let got = fault.render();
    let should_be = "error: tabs should be avoided\n  --> src/main.rs:42:0\n   |\n42 |     let n = 4711;\n   | ^^^^ tab found here\n   |\n   = help: use spaces instead of tabs\n";

    assert_eq!(got, should_be);
}

#[test]
fn excerpt_example_rendered_byte_for_byte() {
    let fault = Fault {
        msg: Message::warning("tabs should be avoided"),
        quote: Quote::Excerpt {
            path: String::from("src/main.rs"),
            row: 42,
            col_from: 0,
            col_to: 3,
            txt: String::from("    let n = 4711;"),
            msg: Message::bare("tab found here"),
        },
        hints: vec![Message::help("use spaces instead of tabs")],
    };

    let got = fault.render();
    let lines: Vec<&str> = got.split('\n').collect();
    assert_eq!(lines.len(), 8);
    assert_eq!(lines[0], "warning: tabs should be avoided");
    assert_eq!(lines[1], "  --> src/main.rs:42:0");
    assert_eq!(lines[2], "   |");
    assert_eq!(lines[3], "42 |     let n = 4711;");
    assert_eq!(lines[4], "   | ^^^^ tab found here");
    assert_eq!(lines[5], "   |");
    assert_eq!(lines[6], "   = help: use spaces instead of tabs");
    assert_eq!(lines[7], "");
}

#[test]
fn simple_error_is_one_line() {
    let fault = Fault::simple(Message::error("x"));
    assert_eq!(fault.render(), "error: x\n");
}

#[test]
fn bare_message_renders_plain() {
    let fault = Fault::simple(Message::bare("just text"));
    assert_eq!(fault.render(), "just text\n");
}

#[test]
fn level_keywords() {
    assert_eq!(Level::Error.to_str(), "error");
    assert_eq!(Level::Warning.to_str(), "warning");
    assert_eq!(Level::Note.to_str(), "note");
    assert_eq!(Level::Help.to_str(), "help");
    assert!(Message::bare("x").is_bare());
    assert!(!Message::note("x").is_bare());
}

#[test]
fn canvas_prefix_follows_row_width() {
    let narrow = Quote::Excerpt {
        path: String::from("a"),
        row: 9,
        col_from: 0,
        col_to: 0,
        txt: String::from("x"),
        msg: Message::bare("m"),
    };
    assert_eq!(narrow.canvas_prefix(), " ");
    let wide = Quote::Excerpt {
        path: String::from("a"),
        row: 100,
        col_from: 0,
        col_to: 0,
        txt: String::from("x"),
        msg: Message::bare("m"),
    };
    assert_eq!(wide.canvas_prefix(), "   ");
    assert_eq!(Quote::Empty.canvas_prefix(), " ");
}

#[test]
fn file_quote_with_hint_keeps_single_space_gutter() {
    let fault = Fault {
        msg: Message::warning("binary file skipped"),
        quote: Quote::File { path: String::from("img/logo.png") },
        hints: vec![Message::note("only text files are reviewed")],
    };
    let got = fault.render();
    let should_be = "warning: binary file skipped\n --> img/logo.png\n  = note: only text files are reviewed\n";
    assert_eq!(got, should_be);
}
