use pbuildrs::patcher::{
    is_whitespace, patch_edition, scan_line, CommentContext, Error, Outcome, Patcher, State,
};

fn patch(input: &[u8]) -> (Outcome, Vec<u8>) {
    let mut output = Vec::new();
    let outcome = patch_edition(input, &mut output).expect("the patcher failed");
    (outcome, output)
}

fn run(input: &[u8]) -> State {
    let mut state = State::Idle;
    for (pos, &ch) in input.iter().enumerate() {
        state = state.next_token(ch, pos).expect("the lexer failed");
    }
    state
}

#[test]
fn whitespace_is_the_five_ascii_blanks() {
    for ch in 0..=255u8 {
        assert_eq!(is_whitespace(ch), ch.is_ascii_whitespace(), "byte {}", ch);
    }
}

#[test]
fn idle_steps() {
    assert_eq!(State::Idle.next_token(b'e', 3), Ok(State::Edition(3, 0)));
    assert_eq!(
        State::Idle.next_token(b'/', 4),
        Ok(State::CommentPending(4, CommentContext::Idle))
    );
    assert_eq!(State::Idle.next_token(b' ', 0), Ok(State::Idle));
    assert_eq!(State::Idle.next_token(b'\n', 0), Ok(State::Idle));
    assert_eq!(State::Idle.next_token(b's', 0), Ok(State::Complete(None)));
}

#[test]
fn keyword_steps() {
    assert_eq!(run(b"e"), State::Edition(0, 0));
    assert_eq!(run(b"edit"), State::Edition(0, 3));
    assert_eq!(run(b"  edition"), State::Edition(2, 6));
    assert_eq!(run(b"edixion"), State::Complete(None));
    assert_eq!(run(b"editions"), State::Complete(None));
    assert_eq!(run(b"Edition"), State::Complete(None));
    assert_eq!(State::Edition(0, 7).next_token(b'=', 9), Ok(State::Complete(None)));
}

#[test]
fn declaration_steps() {
    assert_eq!(run(b"edition "), State::EditionWhitespacePost(0));
    assert_eq!(run(b"edition="), State::EditionEqual(0));
    assert_eq!(run(b"edition = "), State::EditionEqualWhitespacePost(0));
    assert_eq!(run(b"edition = \""), State::EditionOpenQuote(0));
    assert_eq!(run(b"edition = \"2"), State::EditionValue(0));
    assert_eq!(run(b"edition = \"2\\"), State::EditionValueEscape(0));
    assert_eq!(run(b"edition = \"2\\\""), State::EditionValue(0));
    assert_eq!(run(b"edition = \"2023\""), State::EditionCloseQuote(0));
    assert_eq!(run(b"edition = \"2023\";"), State::Complete(Some((0, 16))));
    assert_eq!(run(b"edition = \"2023\";\nedition"), State::Complete(Some((0, 16))));
    assert_eq!(run(b"edition x"), State::Complete(None));
    assert_eq!(run(b"edition = x"), State::Complete(None));
}

#[test]
fn comment_steps() {
    let idle = CommentContext::Idle;
    assert_eq!(run(b"/"), State::CommentPending(0, idle));
    assert_eq!(run(b"//"), State::CommentSingleLine(0, idle));
    assert_eq!(run(b"// x"), State::CommentSingleLine(0, idle));
    assert_eq!(run(b"// x\n"), State::Idle);
    assert_eq!(run(b"/*"), State::CommentMultiLine(0, idle));
    assert_eq!(run(b"/* *"), State::CommentMultiLineEndPending(0, idle));
    assert_eq!(run(b"/* * "), State::CommentMultiLine(0, idle));
    assert_eq!(run(b"/* */"), State::Idle);
    assert_eq!(run(b"/x"), State::Complete(None));
    let after_keyword = CommentContext::EditionWhitespacePost(1);
    assert_eq!(run(b" edition/"), State::CommentPending(1, after_keyword));
    assert_eq!(run(b" edition/**/"), State::EditionWhitespacePost(1));
    assert_eq!(run(b" edition //\n"), State::EditionWhitespacePost(1));
    assert_eq!(
        run(b" edition=/"),
        State::CommentPending(1, CommentContext::EditionEqual(1))
    );
    assert_eq!(run(b" edition=/**/"), State::EditionEqual(1));
    assert_eq!(
        run(b" edition= /"),
        State::CommentPending(1, CommentContext::EditionEqualWhitespacePost(1))
    );
    assert_eq!(run(b" edition= /**/"), State::EditionEqualWhitespacePost(1));
    assert_eq!(run(b" edition / 2"), State::Complete(None));
}

#[test]
fn a_run_of_stars_ends_a_comment() {
    assert_eq!(run(b"/**/"), State::Idle);
    assert_eq!(run(b"/***/"), State::Idle);
    assert_eq!(run(b"/** doc **/"), State::Idle);
    assert_eq!(run(b"/*/"), State::CommentMultiLine(0, CommentContext::Idle));
    let (outcome, output) = patch(b"/** doc **/\nedition = \"2023\";\n");
    assert_eq!(outcome, Outcome::Replaced);
    assert_eq!(output, b"/** doc **/\nsyntax = \"proto3\";\n".to_vec());
}

#[test]
fn complete_absorbs_every_byte() {
    for ch in 0..=255u8 {
        assert_eq!(State::Complete(None).next_token(ch, 7), Ok(State::Complete(None)));
        assert_eq!(
            State::Complete(Some((1, 5))).next_token(ch, 7),
            Ok(State::Complete(Some((1, 5))))
        );
    }
}

#[test]
fn bounds_of_each_state() {
    let ctx = CommentContext::Idle;
    assert_eq!(State::Idle.get_bounds(), None);
    assert_eq!(State::Complete(None).get_bounds(), None);
    assert_eq!(State::Complete(Some((2, 9))).get_bounds(), Some((2, Some(9))));
    assert_eq!(State::CommentPending(1, ctx).get_bounds(), Some((1, None)));
    assert_eq!(State::CommentSingleLine(2, ctx).get_bounds(), Some((2, None)));
    assert_eq!(State::CommentMultiLine(3, ctx).get_bounds(), Some((3, None)));
    assert_eq!(State::CommentMultiLineEndPending(4, ctx).get_bounds(), Some((4, None)));
    assert_eq!(State::Edition(5, 2).get_bounds(), Some((5, None)));
    assert_eq!(State::EditionWhitespacePost(6).get_bounds(), Some((6, None)));
    assert_eq!(State::EditionEqual(7).get_bounds(), Some((7, None)));
    assert_eq!(State::EditionEqualWhitespacePost(8).get_bounds(), Some((8, None)));
    assert_eq!(State::EditionOpenQuote(9).get_bounds(), Some((9, None)));
    assert_eq!(State::EditionValueEscape(10).get_bounds(), Some((10, None)));
    assert_eq!(State::EditionValue(11).get_bounds(), Some((11, None)));
    assert_eq!(State::EditionCloseQuote(12).get_bounds(), Some((12, None)));
}

#[test]
fn contexts_resume_their_states() {
    assert_eq!(State::from(CommentContext::Idle), State::Idle);
    assert_eq!(
        State::from(CommentContext::EditionWhitespacePost(3)),
        State::EditionWhitespacePost(3)
    );
    assert_eq!(State::from(CommentContext::EditionEqual(4)), State::EditionEqual(4));
    assert_eq!(
        State::from(CommentContext::EditionEqualWhitespacePost(5)),
        State::EditionEqualWhitespacePost(5)
    );
}

#[test]
fn only_gap_states_suspend() {
    assert_eq!(CommentContext::try_from(State::Idle), Ok(CommentContext::Idle));
    assert_eq!(
        CommentContext::try_from(State::Edition(2, 6)),
        Ok(CommentContext::EditionWhitespacePost(2))
    );
    assert_eq!(
        CommentContext::try_from(State::EditionWhitespacePost(2)),
        Ok(CommentContext::EditionWhitespacePost(2))
    );
    assert_eq!(
        CommentContext::try_from(State::EditionEqual(2)),
        Ok(CommentContext::EditionEqual(2))
    );
    assert_eq!(
        CommentContext::try_from(State::EditionEqualWhitespacePost(2)),
        Ok(CommentContext::EditionEqualWhitespacePost(2))
    );
    assert_eq!(CommentContext::try_from(State::Edition(2, 5)), Err(Error::InvalidState));
    assert_eq!(CommentContext::try_from(State::Complete(None)), Err(Error::InvalidState));
    assert_eq!(CommentContext::try_from(State::EditionValue(0)), Err(Error::InvalidState));
    assert_eq!(
        CommentContext::try_from(State::CommentPending(0, CommentContext::Idle)),
        Err(Error::InvalidState)
    );
}

#[test]
fn scan_line_is_the_fold_of_next_token() {
    let inputs: [&[u8]; 6] = [
        b"",
        b"  // c\n edition /* x */ = \"1\" ;",
        b"edition = \"2023\"",
        b"syntax = \"proto3\";",
        b"/* open",
        b"edit",
    ];
    for input in inputs {
        assert_eq!(scan_line(input), Ok(run(input)));
    }
}

#[test]
fn empty_file() {
    let (outcome, output) = patch(b"");
    assert_eq!(outcome, Outcome::Untouched);
    assert_eq!(output, Vec::<u8>::new());
}

#[test]
fn output_is_appended() {
    let mut output = b"kept".to_vec();
    let outcome = patch_edition(b"edition=\"1\";", &mut output);
    assert_eq!(outcome, Ok(Outcome::Replaced));
    assert_eq!(output, b"keptsyntax = \"proto3\";".to_vec());
}

#[test]
fn the_closing_quote_completes_the_match() {
    let (outcome, output) = patch(b"edition = \"2023\"");
    assert_eq!(outcome, Outcome::Replaced);
    assert_eq!(output, b"syntax = \"proto3\"".to_vec());
}

#[test]
fn an_escaped_quote_does_not_close_the_value() {
    let (outcome, output) = patch(b"edition = \"20\\\"23\" ;\n");
    assert_eq!(outcome, Outcome::Replaced);
    assert_eq!(output, b"syntax = \"proto3\" ;\n".to_vec());
    let (outcome, output) = patch(b"edition = \"20\\\\\"23\";\n");
    assert_eq!(outcome, Outcome::Replaced);
    assert_eq!(output, b"syntax = \"proto3\"23\";\n".to_vec());
}

#[test]
fn what_ends_in_the_middle_is_copied() {
    let inputs: [&[u8]; 9] = [
        b"// no line feed",
        b"/* never closed\n",
        b"/",
        b"edit",
        b"edition",
        b"edition =",
        b"edition = \"202",
        b"edition = \"2023\\",
        b"  edition /* = \"2023\";",
    ];
    for input in inputs {
        let (outcome, output) = patch(input);
        assert_eq!(outcome, Outcome::Untouched);
        assert_eq!(output, input.to_vec());
    }
}

#[test]
fn only_the_first_declaration_is_replaced() {
    let (outcome, output) = patch(b"edition = \"2023\";\nedition = \"2024\";\n");
    assert_eq!(outcome, Outcome::Replaced);
    assert_eq!(output, b"syntax = \"proto3\";\nedition = \"2024\";\n".to_vec());
}

#[test]
fn a_declaration_after_another_statement_stays() {
    let input = b"package crabs;\nedition = \"2023\";\n";
    let (outcome, output) = patch(input);
    assert_eq!(outcome, Outcome::Untouched);
    assert_eq!(output, input.to_vec());
}

#[test]
fn edition_in_a_string_value_stays() {
    let input = b"syntax = \"edition = \\\"2023\\\";\";\n";
    let (outcome, output) = patch(input);
    assert_eq!(outcome, Outcome::Untouched);
    assert_eq!(output, input.to_vec());
}

#[test]
fn a_keyword_that_goes_on_is_no_keyword() {
    for input in [&b"editions = \"2023\";\n"[..], b"edition2 = \"2023\";\n", b"edition;\n"] {
        let (outcome, output) = patch(input);
        assert_eq!(outcome, Outcome::Untouched);
        assert_eq!(output, input.to_vec());
    }
}

#[test]
fn comments_outside_the_declaration_stay() {
    let (outcome, output) =
        patch(b"// one\n/* two */ edition = \"2023\" /* three */; // four\n");
    assert_eq!(outcome, Outcome::Replaced);
    assert_eq!(
        output,
        b"// one\n/* two */ syntax = \"proto3\" /* three */; // four\n".to_vec()
    );
}

#[test]
fn comments_inside_the_declaration_go_with_it() {
    let (outcome, output) = patch(b"edition/* c */= \"2023\";");
    assert_eq!(outcome, Outcome::Replaced);
    assert_eq!(output, b"syntax = \"proto3\";".to_vec());
}

#[test]
fn patching_twice_is_patching_once() {
    let inputs: [&[u8]; 4] = [
        b"edition = \"2023\";\n\npackage crabs;\n",
        b"/* c */\n  edition\n=\n\"2023\"\n;",
        b"syntax = \"proto3\";\n",
        b"// edition = \"2023\";",
    ];
    for input in inputs {
        let (_, once) = patch(input);
        let (outcome, twice) = patch(&once);
        assert_eq!(outcome, Outcome::Untouched);
        assert_eq!(twice, once);
    }
}

fn patch_in_parts(input: &[u8], size: usize) -> (Outcome, Vec<u8>) {
    let mut output = Vec::new();
    let mut patcher = Patcher::new();
    for chunk in input.chunks(size) {
        patcher = patcher.feed(chunk, &mut output).expect("the patcher failed");
    }
    let outcome = patcher.finish(&mut output);
    (outcome, output)
}

#[test]
fn parts_of_any_size_give_the_same_file() {
    let inputs: [&[u8]; 6] = [
        b"edition/* Edition comment */// Weird comment here\n= /*This may be 2024 at some point*/\"2023\"\n// Needs to be replaced with syntax for now tho.\n;\n\npackage crabs;\n",
        b"/* We recently upgraded to the\nedition = \"2023\";\n*/\nedition = \"2023\";\n",
        b"syntax = \"proto3\";\n\nmessage Ferris {\n  string edition = 1;\n}\n",
        b"edition = \"2023\"",
        b"// unfinished",
        b"",
    ];
    for input in inputs {
        let whole = patch(input);
        for size in 1..=input.len() + 1 {
            assert_eq!(patch_in_parts(input, size), whole, "parts of {}", size);
        }
    }
}

#[test]
fn a_patcher_writes_what_is_settled_and_holds_back_the_rest() {
    let mut output = Vec::new();
    let patcher = Patcher::new();
    let patcher = patcher.feed(b"// comment\n  /* open", &mut output).unwrap();
    assert_eq!(output, b"// comment\n  ".to_vec());
    let patcher = patcher.feed(b" */ edi", &mut output).unwrap();
    assert_eq!(output, b"// comment\n  /* open */ ".to_vec());
    let patcher = patcher.feed(b"tion = \"2023", &mut output).unwrap();
    assert_eq!(output, b"// comment\n  /* open */ ".to_vec());
    let patcher = patcher.feed(b"\"", &mut output).unwrap();
    assert_eq!(output, b"// comment\n  /* open */ syntax = \"proto3\"".to_vec());
    let patcher = patcher.feed(b";\nedition = \"1\";", &mut output).unwrap();
    assert_eq!(
        output,
        b"// comment\n  /* open */ syntax = \"proto3\";\nedition = \"1\";".to_vec()
    );
    assert_eq!(patcher.finish(&mut output), Outcome::Replaced);
    assert_eq!(
        output,
        b"// comment\n  /* open */ syntax = \"proto3\";\nedition = \"1\";".to_vec()
    );
}

#[test]
fn a_patcher_gives_back_what_it_held_when_the_file_ends() {
    let mut output = Vec::new();
    let patcher = Patcher::new().feed(b"  edition = ", &mut output).unwrap();
    assert_eq!(output, b"  ".to_vec());
    assert_eq!(patcher.finish(&mut output), Outcome::Untouched);
    assert_eq!(output, b"  edition = ".to_vec());
}
