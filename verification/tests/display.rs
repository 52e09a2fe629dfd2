use kerchief::display::{ItemList, Printer, TitledItemList, TitledList};
use kerchief::text::str_chars;
use kerchief::wrap::{
    collect_lines, split_at_separators, tokenize_lines, wrap_lines_tokens, BreakToken,
};

fn chars(s: &str) -> Vec<char> {
    str_chars(s)
}

fn token_texts(tokens: &[BreakToken]) -> Vec<Option<String>> {
    tokens
        .iter()
        .map(|t| match t {
            BreakToken::Line => None,
            BreakToken::Token(v) => Some(v.iter().collect()),
        })
        .collect()
}

#[test]
fn tokenize_splits_runs_and_breaks() {
    let toks = tokenize_lines(&chars("ab\ncd"));
    assert_eq!(
        token_texts(&toks),
        vec![Some(String::from("ab")), None, Some(String::from("cd"))]
    );
    let toks = tokenize_lines(&chars(""));
    assert_eq!(token_texts(&toks), vec![Some(String::new())]);
    let toks = tokenize_lines(&chars("\n\n"));
    assert_eq!(token_texts(&toks), vec![None, None]);
}

#[test]
fn token_widths_ignore_trailing_whitespace() {
    let t = BreakToken::token(chars("ab  "));
    assert_eq!(t.width(), 4);
    assert_eq!(t.end_width(), 2);
    let l = BreakToken::line();
    assert_eq!(l.width(), 0);
    assert_eq!(l.end_width(), 0);
}

#[test]
fn separators_close_each_piece() {
    let toks = tokenize_lines(&chars("aa bb,cc"));
    let split = split_at_separators(&toks, &vec![' ', ',']);
    assert_eq!(
        token_texts(&split),
        vec![
            Some(String::from("aa ")),
            Some(String::from("bb,")),
            Some(String::from("cc")),
        ]
    );
}

#[test]
fn wrapping_moves_wide_runs_to_fresh_lines() {
    let toks = tokenize_lines(&chars("aa bb cc"));
    let split = split_at_separators(&toks, &vec![' ']);
    let wrapped = wrap_lines_tokens(&split, 5);
    let lines = collect_lines(&wrapped);
    let texts: Vec<String> = lines.iter().map(|l| l.iter().collect()).collect();
    assert_eq!(
        texts,
        vec![String::from("aa "), String::from("bb "), String::from("cc")]
    );
}

#[test]
fn printer_renders_lines_at_their_offsets() {
    let mut p = Printer::new(10);
    p.insert_on_line(0, 2, chars("ab"));
    let lines = p.render();
    assert_eq!(lines, vec![String::from("  ab      ")]);
}

#[test]
fn printer_later_pieces_paint_over_earlier_ones() {
    let mut p = Printer::new(8);
    p.insert_on_line(0, 0, chars("aaaaaa"));
    p.insert_on_line(0, 3, chars("bb"));
    let lines = p.render();
    assert_eq!(lines, vec![String::from("aaabb   ")]);
}

#[test]
fn printer_discards_pieces_beyond_the_width() {
    let mut p = Printer::new(4);
    p.insert_on_line(0, 9, chars("zz"));
    p.insert_on_line(2, 0, chars("ok"));
    let lines = p.render();
    assert_eq!(
        lines,
        vec![String::from("    "), String::from("    "), String::from("ok  ")]
    );
}

#[test]
fn clearing_empties_the_buffer_and_keeps_the_width() {
    let mut p = Printer::new(6);
    p.insert_on_line(0, 0, chars("page"));
    assert_eq!(p.render(), vec![String::from("page  ")]);
    // rendering leaves the buffer in place
    assert_eq!(p.render(), vec![String::from("page  ")]);
    p.clear();
    assert_eq!(p.render(), Vec::<String>::new());
    p.insert_on_line(0, 0, chars("next"));
    assert_eq!(p.render(), vec![String::from("next  ")]);
}

#[test]
fn item_list_writes_prefixed_items() {
    let mut list = ItemList::new(0, 0, 10).prefix("- ");
    list.add_item("hi");
    list.add_item("yo");
    let mut p = Printer::new(10);
    let dy = list.write_to_printer(&mut p);
    assert_eq!(dy, 2);
    let lines = p.render();
    assert_eq!(lines, vec![String::from("- hi      "), String::from("- yo      ")]);
}

#[test]
fn item_list_wraps_wide_content() {
    let mut list = ItemList::new(0, 0, 5);
    list.add_item("aa bb cc");
    let mut p = Printer::new(5);
    let dy = list.write_to_printer(&mut p);
    assert_eq!(dy, 3);
    let lines = p.render();
    assert_eq!(
        lines,
        vec![String::from("aa  \u{2592}"), String::from("bb   "), String::from("cc   ")]
    );
}

#[test]
fn titled_item_list_indents_children() {
    let mut list = TitledItemList::new(0, 0, 20)
        .title("Title")
        .title_prefix("# ")
        .child_prefixes("a ", "b ", "c ", "s ")
        .child_indent(2);
    list.add_child("one");
    list.add_child("two");
    list.add_child("three");
    let mut p = Printer::new(12);
    list.write_to_printer(&mut p);
    let lines = p.render();
    assert_eq!(
        lines,
        vec![
            String::from("# Title     "),
            String::from("  a one     "),
            String::from("  b two     "),
            String::from("  c three   "),
        ]
    );
}

#[test]
fn titled_list_writes_title_then_wrapped_children() {
    let mut list = TitledList::new(0, 0, 12)
        .title("T")
        .title_prefix("# ")
        .child_prefixes("- ", "- ", "- ", "- ")
        .child_indent(1)
        .separators(vec![' ']);
    list.add_child("one");
    let mut p = Printer::new(12);
    list.write_to_printer(&mut p);
    let lines = p.render();
    assert_eq!(lines, vec![String::from("# T         "), String::from(" - one      ")]);
}
