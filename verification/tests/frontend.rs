use gazm::async_tokenize::{IncludeErrorKind, IncludeStack};
use gazm::cli::styling::{get_banner, BANNER};
use gazm::cpu6800::assembler6800::Asm6800;

/// `s` without its escape sequences.
fn strip_escapes(s: &str) -> String {
    let mut out = String::new();
    let mut chars = s.chars();
    while let Some(c) = chars.next() {
        if c == '\x1B' {
            for d in chars.by_ref() {
                if d == 'm' {
                    break;
                }
            }
        } else {
            out.push(c);
        }
    }
    out
}

#[test]
fn banner_shows_each_line() {
    let banner = get_banner();
    assert_eq!(strip_escapes(&banner), BANNER);
    assert_eq!(banner.split('\n').count(), BANNER.split('\n').count());
    assert!(banner.contains("Assembler (currently only 6809)"));
    assert_eq!(banner.matches('\n').count(), 5);
    assert_eq!(get_banner(), banner);
    let rainbow = [
        (255, 127, 127),
        (255, 127, 0),
        (255, 255, 0),
        (0, 255, 0),
        (0, 0, 255),
        (75, 0, 30),
        (148, 0, 211),
    ];
    for (i, (line, plain)) in banner.split('\n').zip(BANNER.split('\n')).enumerate() {
        if line != plain {
            let (r, g, b) = rainbow[i % rainbow.len()];
            let truecolor = format!("\x1b[1;38;2;{r};{g};{b}m{plain}\x1b[0m");
            assert!(line == truecolor || (line.starts_with("\x1b[1;") && line.ends_with(&format!("m{plain}\x1b[0m"))));
        }
    }
}

#[test]
fn include_stack_refuses_circular_includes() {
    let mut s = IncludeStack::new();
    assert_eq!(s.top(), None);
    assert_eq!(s.pop(), Err(IncludeErrorKind::CantPop));
    let a = "a.gazm".to_string();
    let b = "b.gazm".to_string();
    assert_eq!(s.push(&a), Ok(()));
    assert_eq!(s.push(&b), Ok(()));
    assert_eq!(s.top(), Some(b.clone()));
    assert!(s.is_circular(&a));
    assert_eq!(s.push(&a), Err(IncludeErrorKind::CircularInclude));
    assert_eq!(s.top(), Some(b.clone()));
    assert_eq!(s.pop(), Ok(()));
    assert_eq!(s.top(), Some(a.clone()));
    assert!(!s.is_circular(&b));
    assert_eq!(s.pop(), Ok(()));
    assert_eq!(s.top(), None);
}

#[test]
fn m6800_backend_name() {
    assert_eq!(Asm6800::new().get_cpu_name(), "6800");
}

use gazm::cpu6809::frontend::{
    get_indexed, get_operand_kind, get_reg_set, get_register, parse_indexed,
    parse_opcode_reg_pair, reg_from_name, ErrCode, OperandKind, ParseError, Token,
};
use gazm::cpu6809::nodekind::IndexParseType;
use gazm::cpu6809::regutils::RegEnum;
use gazm::cpu6809::frontend::Token::{
    CloseSquareBracket, Comma, GreaterThan, LessThan, Minus, OpenSquareBracket, Other, Plus,
};

fn id(s: &str) -> Token {
    Token::Identifier(s.to_string())
}

#[test]
fn register_names_ignore_case() {
    assert_eq!(reg_from_name("x"), Some(RegEnum::X));
    assert_eq!(reg_from_name("PC"), Some(RegEnum::PC));
    assert_eq!(reg_from_name("Dp"), Some(RegEnum::DP));
    assert_eq!(reg_from_name("cc"), Some(RegEnum::CC));
    assert_eq!(reg_from_name("q"), None);
    assert_eq!(reg_from_name("pcx"), None);
    assert_eq!(get_register(&[id("b")], 0), Ok((RegEnum::B, 1)));
    assert_eq!(
        get_register(&[id("foo")], 0),
        Err(ParseError { pos: 0, code: ErrCode::ExpectedRegister6809, fatal: false })
    );
    assert_eq!(
        get_register(&[Token::Comma], 0),
        Err(ParseError { pos: 0, code: ErrCode::NoMatch, fatal: false })
    );
}

#[test]
fn indexed_forms_without_offsets() {
    let cases: Vec<(Vec<Token>, IndexParseType, usize)> = vec![
        (vec![Comma, id("x")], IndexParseType::Zero(RegEnum::X), 2),
        (vec![Comma, id("y"), Plus], IndexParseType::PostInc(RegEnum::Y), 3),
        (vec![Comma, id("u"), Plus, Plus], IndexParseType::PostIncInc(RegEnum::U), 4),
        (vec![Comma, Minus, id("s")], IndexParseType::PreDec(RegEnum::S), 3),
        (vec![Comma, Minus, Minus, id("x")], IndexParseType::PreDecDec(RegEnum::X), 4),
        (vec![Comma, id("pc")], IndexParseType::PCOffset, 2),
        (vec![id("a"), Comma, id("x")], IndexParseType::AddA(RegEnum::X), 3),
        (vec![id("B"), Comma, id("y")], IndexParseType::AddB(RegEnum::Y), 3),
        (vec![id("d"), Comma, id("u")], IndexParseType::AddD(RegEnum::U), 3),
    ];
    for (toks, form, next) in cases {
        assert_eq!(get_indexed(&toks, 0), Ok((form, next)), "{toks:?}");
    }
}

#[test]
fn indexed_errors() {
    // a register other than A, B or D before the comma
    assert_eq!(
        get_indexed(&[id("x"), Comma, id("y")], 0),
        Err(ParseError { pos: 0, code: ErrCode::ExpectedAbd6809, fatal: true })
    );
    // an accumulator after the comma
    assert_eq!(
        get_indexed(&[Comma, id("a")], 0).map_err(|e| (e.code, e.fatal)),
        Err((ErrCode::ExpectedIndexRegister6809, true))
    );
    // an accumulator with post increment
    assert_eq!(
        get_indexed(&[Comma, id("a"), Plus], 0),
        Err(ParseError { pos: 1, code: ErrCode::ExpectedIndexRegister6809, fatal: true })
    );
    // no comma at all
    assert!(get_indexed(&[id("x")], 0).is_err());
}

#[test]
fn bracketed_indexed_forms_are_indirect() {
    assert_eq!(
        parse_indexed(&[OpenSquareBracket, Comma, id("y"), Plus, Plus, CloseSquareBracket], 0),
        Ok(((IndexParseType::PostIncInc(RegEnum::Y), true), 6))
    );
    assert_eq!(
        parse_indexed(&[Comma, id("y"), Plus], 0),
        Ok(((IndexParseType::PostInc(RegEnum::Y), false), 3))
    );
    assert_eq!(
        parse_indexed(&[OpenSquareBracket, Comma, id("y"), Plus, CloseSquareBracket], 0),
        Err(ParseError { pos: 1, code: ErrCode::IndexModeNotValidIndirect6809, fatal: true })
    );
    assert_eq!(
        parse_indexed(&[OpenSquareBracket, Comma, Minus, id("x"), CloseSquareBracket], 0)
            .map_err(|e| e.code),
        Err(ErrCode::IndexModeNotValidIndirect6809)
    );
}

#[test]
fn register_lists_and_pairs() {
    let (regs, next) = get_reg_set(&[id("a"), Comma, id("b"), Comma, id("x")], 0).unwrap();
    assert_eq!(regs, vec![RegEnum::A, RegEnum::B, RegEnum::X]);
    assert_eq!(next, 5);
    let (regs, next) = get_reg_set(&[id("cc"), Comma, Other], 0).unwrap();
    assert_eq!(regs, vec![RegEnum::CC]);
    assert_eq!(next, 1);
    assert_eq!(
        get_reg_set(&[id("a"), Comma, id("A")], 0),
        Err(ParseError { pos: 0, code: ErrCode::DuplicateRegisters6809, fatal: true })
    );
    assert_eq!(
        parse_opcode_reg_pair(&[id("a"), Comma, id("b")], 0),
        Ok(((RegEnum::A, RegEnum::B), 3))
    );
    assert_eq!(
        parse_opcode_reg_pair(&[id("a"), Comma, Other], 0),
        Err(ParseError { pos: 2, code: ErrCode::NoMatch, fatal: true })
    );
}

#[test]
fn operand_kinds() {
    assert_eq!(get_operand_kind(&[Token::Hash, Other]), OperandKind::Immediate);
    assert_eq!(get_operand_kind(&[Other, Comma, id("x")]), OperandKind::Indexed);
    assert_eq!(get_operand_kind(&[OpenSquareBracket, Other]), OperandKind::Indexed);
    assert_eq!(get_operand_kind(&[LessThan, Other]), OperandKind::Direct);
    assert_eq!(get_operand_kind(&[LessThan, Other, Comma, id("u")]), OperandKind::Indexed);
    assert_eq!(get_operand_kind(&[GreaterThan, Other]), OperandKind::ForcedExtended);
    assert_eq!(get_operand_kind(&[Other]), OperandKind::Extended);
}


use gazm::cli::cpukind::CpuKind;
use gazm::cpu6800::frontend::operand_form;
use gazm::cpu6800::isa::AddrModeParseType as Mode6800;
use gazm::cpu6809::frontend::{lex_identifier, CommandKind, IdentifierKind};

#[test]
fn identifiers_lex_by_kind() {
    assert_eq!(lex_identifier("LDA", true), IdentifierKind::CpuOpcode(CpuKind::Cpu6809));
    assert_eq!(lex_identifier("SetDP", false), IdentifierKind::Command(CommandKind::SetDp));
    assert_eq!(lex_identifier("setdpx", false), IdentifierKind::Label);
    assert_eq!(lex_identifier("loop", false), IdentifierKind::Label);
}

#[test]
fn m6800_operand_forms() {
    assert_eq!(operand_form(&[Other, Comma, id("x")]), Mode6800::Indexed);
    assert_eq!(operand_form(&[Token::Hash, Other, Comma]), Mode6800::Indexed);
    assert_eq!(operand_form(&[Token::Hash, Other]), Mode6800::Immediate);
    assert_eq!(operand_form(&[LessThan, Other]), Mode6800::Direct);
    assert_eq!(operand_form(&[GreaterThan, Other]), Mode6800::Extended(true));
    assert_eq!(operand_form(&[Other]), Mode6800::Extended(false));
}

use gazm::async_tokenize::{next_round, plan_tokenize_round, FileRequest, StoredTokens};

fn req(file: &str, parent: Option<&str>) -> FileRequest {
    FileRequest { requested_file: file.to_string(), parent: parent.map(|p| p.to_string()) }
}

#[test]
fn tokenize_rounds_follow_includes() {
    let files = vec![req("main.gazm", None), req("lib.gazm", Some("main.gazm")), req("new.gazm", None)];
    let stored = vec![
        StoredTokens::Tokenized(vec!["/p/a.gazm".to_string(), "/p/b.gazm".to_string()]),
        StoredTokens::Tokenized(vec![]),
        StoredTokens::NotYet,
    ];
    let (requests, queued) = plan_tokenize_round(&files, &stored);
    assert_eq!(requests, vec![2]);
    assert_eq!(queued, vec![req("/p/a.gazm", None), req("/p/b.gazm", None)]);

    let requested = vec![files[2].clone()];
    let next = next_round(queued, &requested, &vec![true]);
    assert_eq!(
        next,
        vec![req("/p/a.gazm", None), req("/p/b.gazm", None), req("new.gazm", None)]
    );
    let next = next_round(vec![], &requested, &vec![false]);
    assert!(next.is_empty());
}
