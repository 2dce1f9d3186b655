//! The operand grammar of the 6809 over tokens: registers, register lists
//! and pairs, the indexed forms that take no offset expression (`,x`,
//! `,x+`, `,--y`, `a,x`, `,pc` and their bracketed, indirect variants),
//! and the choice of operand kind by its first token.
use vstd::prelude::*;
use crate::cli::cpukind::{lower_code, matches_name, same_name, CpuKind};
use super::isa::{find_row, get_instruction, row_for, AddrModeEnum, Instruction, InstructionInfo};
use super::nodekind::{AddrModeParseType, IndexParseType};
use super::regutils::RegEnum;
use super::compile::is_unsized;
use super::sizer::sized_form;

verus! {

/// A token of an operand, as far as the operand grammar tells them apart.
#[derive(Debug, Clone, PartialEq, Eq)]
pub enum Token {
    Comma,
    Minus,
    Plus,
    Hash,
    LessThan,
    DoubleLessThan,
    GreaterThan,
    OpenSquareBracket,
    CloseSquareBracket,
    Identifier(String),
    /// A token the operand grammar does not look into, such as a number.
    Other,
}

/// What a parse failed on.
#[derive(Debug, Clone, Copy, PartialEq, Eq, Structural)]
pub enum ErrCode {
    /// The expected token is not there.
    NoMatch,
    ExpectedRegister6809,
    ExpectedIndexRegister6809,
    ExpectedAbd6809,
    DuplicateRegisters6809,
    IndexModeNotValidIndirect6809,
}

/// A parse failure: where, why, and whether it stops the search for another
/// form (a fatal error) or lets the next alternative be tried.
#[derive(Debug, Clone, Copy, PartialEq, Eq, Structural)]
pub struct ParseError {
    pub pos: usize,
    pub code: ErrCode,
    pub fatal: bool,
}

/// A recoverable failure at `pos`.
pub open spec fn fail(pos: usize, code: ErrCode) -> ParseError {
    ParseError { pos, code, fatal: false }
}

/// A fatal failure at `pos`.
pub open spec fn fatal(pos: usize, code: ErrCode) -> ParseError {
    ParseError { pos, code, fatal: true }
}

/// `r` with a failure made fatal.
pub open spec fn cut<T>(r: Result<(T, usize), ParseError>) -> Result<(T, usize), ParseError> {
    match r {
        Err(e) => Err(ParseError { fatal: true, ..e }),
        ok => ok,
    }
}

/// `a`, or `b` where `a` failed without a fatal error.
pub open spec fn alt<T>(a: Result<(T, usize), ParseError>, b: Result<(T, usize), ParseError>) -> Result<
    (T, usize),
    ParseError,
> {
    match a {
        Err(e) => if e.fatal {
            a
        } else {
            b
        },
        ok => ok,
    }
}

/// The register a name stands for, up to the case of ASCII letters.
pub open spec fn reg_named(s: Seq<char>) -> Option<RegEnum> {
    if same_name(s, seq!['a']) {
        Some(RegEnum::A)
    } else if same_name(s, seq!['b']) {
        Some(RegEnum::B)
    } else if same_name(s, seq!['d']) {
        Some(RegEnum::D)
    } else if same_name(s, seq!['x']) {
        Some(RegEnum::X)
    } else if same_name(s, seq!['y']) {
        Some(RegEnum::Y)
    } else if same_name(s, seq!['u']) {
        Some(RegEnum::U)
    } else if same_name(s, seq!['s']) {
        Some(RegEnum::S)
    } else if same_name(s, seq!['p', 'c']) {
        Some(RegEnum::PC)
    } else if same_name(s, seq!['c', 'c']) {
        Some(RegEnum::CC)
    } else if same_name(s, seq!['d', 'p']) {
        Some(RegEnum::DP)
    } else {
        None
    }
}

/// A register at `i`.
pub open spec fn register(t: Seq<Token>, i: usize) -> Result<(RegEnum, usize), ParseError> {
    if i < t.len() {
        match t[i as int] {
            Token::Identifier(s) => match reg_named(s@) {
                Some(r) => Ok((r, (i + 1) as usize)),
                None => Err(fail(i, ErrCode::ExpectedRegister6809)),
            },
            _ => Err(fail(i, ErrCode::NoMatch)),
        }
    } else {
        Err(fail(i, ErrCode::NoMatch))
    }
}

/// The token `k` at `i`.
pub open spec fn tag(t: Seq<Token>, i: usize, k: Token) -> bool {
    i < t.len() && t[i as int] == k
}

/// An index register (X, Y, U or S) at `i`.
pub open spec fn index_reg(t: Seq<Token>, i: usize) -> Result<(RegEnum, usize), ParseError> {
    match register(t, i) {
        Err(e) => Err(ParseError { code: ErrCode::ExpectedIndexRegister6809, ..e }),
        Ok((r, n)) => if r.spec_valid_for_index() {
            Ok((r, n))
        } else {
            Err(fail(i, ErrCode::ExpectedIndexRegister6809))
        },
    }
}

/// `r` with its register put into the form `f`.
pub open spec fn with_reg(r: Result<(RegEnum, usize), ParseError>, f: spec_fn(RegEnum) -> IndexParseType) -> Result<
    (IndexParseType, usize),
    ParseError,
> {
    match r {
        Ok((x, n)) => Ok((f(x), n)),
        Err(e) => Err(e),
    }
}

/// `-R` at `i`.
pub open spec fn pre_dec(t: Seq<Token>, i: usize) -> Result<(IndexParseType, usize), ParseError> {
    if tag(t, i, Token::Minus) {
        with_reg(cut(index_reg(t, (i + 1) as usize)), |r| IndexParseType::PreDec(r))
    } else {
        Err(fail(i, ErrCode::NoMatch))
    }
}

/// `--R` at `i`.
pub open spec fn pre_dec_dec(t: Seq<Token>, i: usize) -> Result<(IndexParseType, usize), ParseError> {
    if tag(t, i, Token::Minus) && tag(t, (i + 1) as usize, Token::Minus) {
        with_reg(index_reg(t, (i + 2) as usize), |r| IndexParseType::PreDecDec(r))
    } else {
        Err(fail(i, ErrCode::NoMatch))
    }
}

/// `R+` at `i`: a register other than an index register is fatal.
pub open spec fn post_inc(t: Seq<Token>, i: usize) -> Result<(IndexParseType, usize), ParseError> {
    match register(t, i) {
        Err(e) => Err(e),
        Ok((r, n)) => if !tag(t, n, Token::Plus) {
            Err(fail(n, ErrCode::NoMatch))
        } else if r.spec_valid_for_index() {
            Ok((IndexParseType::PostInc(r), (n + 1) as usize))
        } else {
            Err(fatal(i, ErrCode::ExpectedIndexRegister6809))
        },
    }
}

/// `R++` at `i`: a register other than an index register is fatal.
pub open spec fn post_inc_inc(t: Seq<Token>, i: usize) -> Result<(IndexParseType, usize), ParseError> {
    match register(t, i) {
        Err(e) => Err(e),
        Ok((r, n)) => if !(tag(t, n, Token::Plus) && tag(t, (n + 1) as usize, Token::Plus)) {
            Err(fail(n, ErrCode::NoMatch))
        } else if r.spec_valid_for_index() {
            Ok((IndexParseType::PostIncInc(r), (n + 2) as usize))
        } else {
            Err(fatal(i, ErrCode::ExpectedIndexRegister6809))
        },
    }
}

/// `PC` at `i`.
pub open spec fn pc_offset(t: Seq<Token>, i: usize) -> Result<(IndexParseType, usize), ParseError> {
    match register(t, i) {
        Err(e) => Err(e),
        Ok((r, n)) => if r == RegEnum::PC {
            Ok((IndexParseType::PCOffset, n))
        } else {
            Err(fail(i, ErrCode::ExpectedRegister6809))
        },
    }
}

/// `R` at `i`, an index register, or a fatal error.
pub open spec fn zero(t: Seq<Token>, i: usize) -> Result<(IndexParseType, usize), ParseError> {
    with_reg(cut(index_reg(t, i)), |r| IndexParseType::Zero(r))
}

/// `,` then one of `--R`, `-R`, `R++`, `R+`, `PC` or `R` at `i`; after the
/// comma every failure is fatal.
pub open spec fn indexed_direct(t: Seq<Token>, i: usize) -> Result<(IndexParseType, usize), ParseError> {
    if tag(t, i, Token::Comma) {
        let n = (i + 1) as usize;
        cut(
            alt(
                pre_dec_dec(t, n),
                alt(
                    pre_dec(t, n),
                    alt(post_inc_inc(t, n), alt(post_inc(t, n), alt(pc_offset(t, n), zero(t, n)))),
                ),
            ),
        )
    } else {
        Err(fail(i, ErrCode::NoMatch))
    }
}

/// The form that adds accumulator `acc` to index register `r`.
pub open spec fn abd_form(acc: RegEnum, r: RegEnum) -> IndexParseType {
    match acc {
        RegEnum::A => IndexParseType::AddA(r),
        RegEnum::B => IndexParseType::AddB(r),
        _ => IndexParseType::AddD(r),
    }
}

/// `A,R`, `B,R` or `D,R` at `i`: another register before the comma, or
/// anything but an index register after it, is fatal.
pub open spec fn abd_indexed(t: Seq<Token>, i: usize) -> Result<(IndexParseType, usize), ParseError> {
    match register(t, i) {
        Err(e) => Err(e),
        Ok((acc, n)) => if !tag(t, n, Token::Comma) {
            Err(fail(n, ErrCode::NoMatch))
        } else if !acc.spec_valid_abd() {
            Err(fatal(i, ErrCode::ExpectedAbd6809))
        } else {
            with_reg(cut(index_reg(t, (n + 1) as usize)), |r| abd_form(acc, r))
        },
    }
}

/// An indexed form without an offset expression at `i`.
pub open spec fn indexed(t: Seq<Token>, i: usize) -> Result<(IndexParseType, usize), ParseError> {
    alt(abd_indexed(t, i), indexed_direct(t, i))
}

/// An indexed form without an offset expression at `i`; inside brackets
/// (`indirect`) the single increment and decrement forms are fatal.
pub open spec fn index_only(t: Seq<Token>, i: usize, indirect: bool) -> Result<(IndexParseType, usize), ParseError> {
    match indexed(t, i) {
        Err(e) => Err(e),
        Ok((m, n)) => if indirect && (m is PostInc || m is PreDec) {
            Err(fatal(i, ErrCode::IndexModeNotValidIndirect6809))
        } else {
            Ok((m, n))
        },
    }
}

/// An indexed operand without an offset expression at `i`: in brackets,
/// indirect, or bare.
pub open spec fn indexed_operand(t: Seq<Token>, i: usize) -> Result<((IndexParseType, bool), usize), ParseError> {
    let bracketed: Result<((IndexParseType, bool), usize), ParseError> = if tag(
        t,
        i,
        Token::OpenSquareBracket,
    ) {
        match index_only(t, (i + 1) as usize, true) {
            Err(e) => Err(e),
            Ok((m, n)) => if tag(t, n, Token::CloseSquareBracket) {
                Ok(((m, true), (n + 1) as usize))
            } else {
                Err(fail(n, ErrCode::NoMatch))
            },
        }
    } else {
        Err(fail(i, ErrCode::NoMatch))
    };
    let bare: Result<((IndexParseType, bool), usize), ParseError> = match index_only(t, i, false) {
        Err(e) => Err(e),
        Ok((m, n)) => Ok(((m, false), n)),
    };
    alt(bracketed, bare)
}

/// A form without an offset expression starts with a register or a comma,
/// never with a bracket.
proof fn lemma_indexed_not_at_bracket(t: Seq<Token>, i: usize)
    requires
        tag(t, i, Token::OpenSquareBracket),
    ensures
        indexed(t, i) is Err,
        index_only(t, i, false) is Err,
        !indexed(t, i)->Err_0.fatal,
{
}

/// An indexed operand is indirect exactly when it is written in brackets:
/// parsed from a `[`, it is indirect and ends after the closing `]`;
/// parsed from anything else, it is not indirect.
pub proof fn lemma_indirect_iff_bracketed(t: Seq<Token>, i: usize)
    ensures
        indexed_operand(t, i) matches Ok(((m, ind), n)) ==> (ind <==> tag(t, i, Token::OpenSquareBracket)),
{
    if tag(t, i, Token::OpenSquareBracket) {
        lemma_indexed_not_at_bracket(t, i);
    }
}

/// An indirect indexed operand ends after its closing `]`.
pub proof fn lemma_indirect_closes(t: Seq<Token>, i: usize)
    requires
        t.len() <= usize::MAX,
    ensures
        indexed_operand(t, i) matches Ok(((m, ind), n)) ==> (ind ==> n >= 1 && tag(
            t,
            (n - 1) as usize,
            Token::CloseSquareBracket,
        )),
{
    if tag(t, i, Token::OpenSquareBracket) {
        lemma_indexed_not_at_bracket(t, i);
    }
}

/// The register name of `s`, if any.
pub fn reg_from_name(s: &str) -> (res: Option<RegEnum>)
    ensures
        res == reg_named(s@),
{
    proof {
        reveal_strlit("a");
        reveal_strlit("b");
        reveal_strlit("d");
        reveal_strlit("x");
        reveal_strlit("y");
        reveal_strlit("u");
        reveal_strlit("s");
        reveal_strlit("pc");
        reveal_strlit("cc");
        reveal_strlit("dp");
        assert("a"@ =~= seq!['a']);
        assert("b"@ =~= seq!['b']);
        assert("d"@ =~= seq!['d']);
        assert("x"@ =~= seq!['x']);
        assert("y"@ =~= seq!['y']);
        assert("u"@ =~= seq!['u']);
        assert("s"@ =~= seq!['s']);
        assert("pc"@ =~= seq!['p', 'c']);
        assert("cc"@ =~= seq!['c', 'c']);
        assert("dp"@ =~= seq!['d', 'p']);
    }
    if matches_name(s, "a") {
        Some(RegEnum::A)
    } else if matches_name(s, "b") {
        Some(RegEnum::B)
    } else if matches_name(s, "d") {
        Some(RegEnum::D)
    } else if matches_name(s, "x") {
        Some(RegEnum::X)
    } else if matches_name(s, "y") {
        Some(RegEnum::Y)
    } else if matches_name(s, "u") {
        Some(RegEnum::U)
    } else if matches_name(s, "s") {
        Some(RegEnum::S)
    } else if matches_name(s, "pc") {
        Some(RegEnum::PC)
    } else if matches_name(s, "cc") {
        Some(RegEnum::CC)
    } else if matches_name(s, "dp") {
        Some(RegEnum::DP)
    } else {
        None
    }
}

/// Whether the token at `i` is `k` (`k` being one of the punctuation
/// tokens).
fn is_tag(t: &[Token], i: usize, k: &Token) -> (res: bool)
    requires
        !(k is Identifier),
    ensures
        res == tag(t@, i, *k),
        t@.len() <= usize::MAX,
{
    if i >= t.len() {
        return false;
    }
    match (&t[i], k) {
        (Token::Comma, Token::Comma) => true,
        (Token::Minus, Token::Minus) => true,
        (Token::Plus, Token::Plus) => true,
        (Token::Hash, Token::Hash) => true,
        (Token::LessThan, Token::LessThan) => true,
        (Token::DoubleLessThan, Token::DoubleLessThan) => true,
        (Token::GreaterThan, Token::GreaterThan) => true,
        (Token::OpenSquareBracket, Token::OpenSquareBracket) => true,
        (Token::CloseSquareBracket, Token::CloseSquareBracket) => true,
        (Token::Other, Token::Other) => true,
        _ => false,
    }
}

/// A register at `i`.
pub fn get_register(t: &[Token], i: usize) -> (res: Result<(RegEnum, usize), ParseError>)
    ensures
        res == register(t@, i),
        t@.len() <= usize::MAX,
{
    if i < t.len() {
        match &t[i] {
            Token::Identifier(s) => match reg_from_name(s.as_str()) {
                Some(r) => Ok((r, i + 1)),
                None => Err(ParseError { pos: i, code: ErrCode::ExpectedRegister6809, fatal: false }),
            },
            _ => Err(ParseError { pos: i, code: ErrCode::NoMatch, fatal: false }),
        }
    } else {
        Err(ParseError { pos: i, code: ErrCode::NoMatch, fatal: false })
    }
}

/// An index register at `i`.
pub fn get_index_reg(t: &[Token], i: usize) -> (res: Result<(RegEnum, usize), ParseError>)
    ensures
        res == index_reg(t@, i),
{
    match get_register(t, i) {
        Err(e) => Err(ParseError { code: ErrCode::ExpectedIndexRegister6809, ..e }),
        Ok((r, n)) => if r.valid_for_index() {
            Ok((r, n))
        } else {
            Err(ParseError { pos: i, code: ErrCode::ExpectedIndexRegister6809, fatal: false })
        },
    }
}

/// `r` with a failure made fatal.
fn cut_exec<T>(r: Result<(T, usize), ParseError>) -> (res: Result<(T, usize), ParseError>)
    ensures
        res == cut(r),
{
    match r {
        Err(e) => Err(ParseError { fatal: true, ..e }),
        ok => ok,
    }
}

/// `-R` at `i`.
fn get_pre_dec(t: &[Token], i: usize) -> (res: Result<(IndexParseType, usize), ParseError>)
    ensures
        res == pre_dec(t@, i),
{
    if is_tag(t, i, &Token::Minus) {
        match cut_exec(get_index_reg(t, i + 1)) {
            Ok((r, n)) => Ok((IndexParseType::PreDec(r), n)),
            Err(e) => Err(e),
        }
    } else {
        Err(ParseError { pos: i, code: ErrCode::NoMatch, fatal: false })
    }
}

/// `--R` at `i`.
fn get_pre_dec_dec(t: &[Token], i: usize) -> (res: Result<(IndexParseType, usize), ParseError>)
    ensures
        res == pre_dec_dec(t@, i),
{
    if is_tag(t, i, &Token::Minus) && is_tag(t, i + 1, &Token::Minus) {
        match get_index_reg(t, i + 2) {
            Ok((r, n)) => Ok((IndexParseType::PreDecDec(r), n)),
            Err(e) => Err(e),
        }
    } else {
        Err(ParseError { pos: i, code: ErrCode::NoMatch, fatal: false })
    }
}

/// `R+` at `i`.
fn get_post_inc(t: &[Token], i: usize) -> (res: Result<(IndexParseType, usize), ParseError>)
    ensures
        res == post_inc(t@, i),
{
    match get_register(t, i) {
        Err(e) => Err(e),
        Ok((r, n)) => if !is_tag(t, n, &Token::Plus) {
            Err(ParseError { pos: n, code: ErrCode::NoMatch, fatal: false })
        } else if r.valid_for_index() {
            Ok((IndexParseType::PostInc(r), n + 1))
        } else {
            Err(ParseError { pos: i, code: ErrCode::ExpectedIndexRegister6809, fatal: true })
        },
    }
}

/// `R++` at `i`.
fn get_post_inc_inc(t: &[Token], i: usize) -> (res: Result<(IndexParseType, usize), ParseError>)
    ensures
        res == post_inc_inc(t@, i),
{
    match get_register(t, i) {
        Err(e) => Err(e),
        Ok((r, n)) => if !(is_tag(t, n, &Token::Plus) && is_tag(t, n + 1, &Token::Plus)) {
            Err(ParseError { pos: n, code: ErrCode::NoMatch, fatal: false })
        } else if r.valid_for_index() {
            Ok((IndexParseType::PostIncInc(r), n + 2))
        } else {
            Err(ParseError { pos: i, code: ErrCode::ExpectedIndexRegister6809, fatal: true })
        },
    }
}

/// `PC` at `i`.
fn get_pc_offset(t: &[Token], i: usize) -> (res: Result<(IndexParseType, usize), ParseError>)
    ensures
        res == pc_offset(t@, i),
{
    match get_register(t, i) {
        Err(e) => Err(e),
        Ok((r, n)) => if r == RegEnum::PC {
            Ok((IndexParseType::PCOffset, n))
        } else {
            Err(ParseError { pos: i, code: ErrCode::ExpectedRegister6809, fatal: false })
        },
    }
}

/// `R` at `i`.
fn get_zero(t: &[Token], i: usize) -> (res: Result<(IndexParseType, usize), ParseError>)
    ensures
        res == zero(t@, i),
{
    match cut_exec(get_index_reg(t, i)) {
        Ok((r, n)) => Ok((IndexParseType::Zero(r), n)),
        Err(e) => Err(e),
    }
}

/// `a`, or the result of trying the next alternative where `a` failed
/// without a fatal error.
fn keep_or_try<T>(a: Result<(T, usize), ParseError>) -> (res: bool)
    ensures
        res == (a matches Err(e) && !e.fatal),
{
    match a {
        Err(e) => !e.fatal,
        Ok(_) => false,
    }
}

/// `,` then an index form after it, at `i`.
fn get_indexed_direct(t: &[Token], i: usize) -> (res: Result<(IndexParseType, usize), ParseError>)
    ensures
        res == indexed_direct(t@, i),
{
    if !is_tag(t, i, &Token::Comma) {
        return Err(ParseError { pos: i, code: ErrCode::NoMatch, fatal: false });
    }
    let n = i + 1;
    let r = get_pre_dec_dec(t, n);
    if !keep_or_try(r) {
        return cut_exec(r);
    }
    let r = get_pre_dec(t, n);
    if !keep_or_try(r) {
        return cut_exec(r);
    }
    let r = get_post_inc_inc(t, n);
    if !keep_or_try(r) {
        return cut_exec(r);
    }
    let r = get_post_inc(t, n);
    if !keep_or_try(r) {
        return cut_exec(r);
    }
    let r = get_pc_offset(t, n);
    if !keep_or_try(r) {
        return cut_exec(r);
    }
    cut_exec(get_zero(t, n))
}

/// `A,R`, `B,R` or `D,R` at `i`.
fn get_abd_indexed(t: &[Token], i: usize) -> (res: Result<(IndexParseType, usize), ParseError>)
    ensures
        res == abd_indexed(t@, i),
{
    match get_register(t, i) {
        Err(e) => Err(e),
        Ok((acc, n)) => {
            if !is_tag(t, n, &Token::Comma) {
                Err(ParseError { pos: n, code: ErrCode::NoMatch, fatal: false })
            } else if !acc.valid_abd() {
                Err(ParseError { pos: i, code: ErrCode::ExpectedAbd6809, fatal: true })
            } else {
                match cut_exec(get_index_reg(t, n + 1)) {
                    Ok((r, k)) => {
                        let m = match acc {
                            RegEnum::A => IndexParseType::AddA(r),
                            RegEnum::B => IndexParseType::AddB(r),
                            _ => IndexParseType::AddD(r),
                        };
                        Ok((m, k))
                    },
                    Err(e) => Err(e),
                }
            }
        },
    }
}

/// An indexed form without an offset expression at `i`.
pub fn get_indexed(t: &[Token], i: usize) -> (res: Result<(IndexParseType, usize), ParseError>)
    ensures
        res == indexed(t@, i),
{
    let r = get_abd_indexed(t, i);
    if keep_or_try(r) {
        get_indexed_direct(t, i)
    } else {
        r
    }
}

/// An indexed form without an offset expression at `i`, where inside
/// brackets (`indirect`) `,R+` and `,-R` are refused.
pub fn parse_index_only(t: &[Token], i: usize, indirect: bool) -> (res: Result<
    (IndexParseType, usize),
    ParseError,
>)
    ensures
        res == index_only(t@, i, indirect),
{
    match get_indexed(t, i) {
        Err(e) => Err(e),
        Ok((m, n)) => {
            if indirect && (matches!(m, IndexParseType::PostInc(_)) || matches!(m, IndexParseType::PreDec(_))) {
                Err(ParseError { pos: i, code: ErrCode::IndexModeNotValidIndirect6809, fatal: true })
            } else {
                Ok((m, n))
            }
        },
    }
}

/// An indexed operand without an offset expression at `i`: bracketed and
/// indirect, or bare. Gives the form and whether it is indirect.
pub fn parse_indexed(t: &[Token], i: usize) -> (res: Result<((IndexParseType, bool), usize), ParseError>)
    ensures
        res == indexed_operand(t@, i),
{
    let bracketed: Result<((IndexParseType, bool), usize), ParseError> = if is_tag(
        t,
        i,
        &Token::OpenSquareBracket,
    ) {
        match parse_index_only(t, i + 1, true) {
            Err(e) => Err(e),
            Ok((m, n)) => if is_tag(t, n, &Token::CloseSquareBracket) {
                Ok(((m, true), n + 1))
            } else {
                Err(ParseError { pos: n, code: ErrCode::NoMatch, fatal: false })
            },
        }
    } else {
        Err(ParseError { pos: i, code: ErrCode::NoMatch, fatal: false })
    };
    if keep_or_try(bracketed) {
        match parse_index_only(t, i, false) {
            Err(e) => Err(e),
            Ok((m, n)) => Ok(((m, false), n)),
        }
    } else {
        bracketed
    }
}

/// Further registers after the first of a list at `n`: each a comma and a
/// register, up to the first place where that does not follow.
pub open spec fn more_regs(t: Seq<Token>, n: usize) -> (Seq<RegEnum>, usize)
    decreases t.len() - n,
{
    if n + 2 <= t.len() && n + 2 <= usize::MAX && tag(t, n, Token::Comma) && register(
        t,
        (n + 1) as usize,
    ) is Ok {
        let (r, m) = register(t, (n + 1) as usize)->Ok_0;
        let rest = more_regs(t, m);
        (seq![r] + rest.0, rest.1)
    } else {
        (Seq::empty(), n)
    }
}

/// A register occurs twice in `s`.
pub open spec fn has_dup(s: Seq<RegEnum>) -> bool {
    exists|a: int, b: int| 0 <= a < b < s.len() && #[trigger] s[a] == #[trigger] s[b]
}

/// A comma separated list of registers at `i`, as for `pshs`; a register
/// given twice is fatal.
pub open spec fn reg_set(t: Seq<Token>, i: usize) -> Result<(Seq<RegEnum>, usize), ParseError> {
    match register(t, i) {
        Err(e) => Err(e),
        Ok((r, n)) => {
            let all = seq![r] + more_regs(t, n).0;
            if has_dup(all) {
                Err(fatal(i, ErrCode::DuplicateRegisters6809))
            } else {
                Ok((all, more_regs(t, n).1))
            }
        },
    }
}

/// Two registers separated by a comma at `i`, as for `tfr`; after the
/// comma a missing register is fatal.
pub open spec fn reg_pair(t: Seq<Token>, i: usize) -> Result<((RegEnum, RegEnum), usize), ParseError> {
    match register(t, i) {
        Err(e) => Err(e),
        Ok((a, n)) => if !tag(t, n, Token::Comma) {
            Err(fail(n, ErrCode::NoMatch))
        } else {
            match cut(register(t, (n + 1) as usize)) {
                Err(e) => Err(e),
                Ok((b, m)) => Ok(((a, b), m)),
            }
        },
    }
}

/// Whether a register occurs twice in `v`.
fn has_duplicate(v: &Vec<RegEnum>) -> (res: bool)
    ensures
        res == has_dup(v@),
{
    let mut b: usize = 0;
    while b < v.len()
        invariant
            b <= v@.len(),
            forall|x: int, y: int| 0 <= x < y < b ==> v@[x] != v@[y],
        decreases v@.len() - b,
    {
        let mut a: usize = 0;
        while a < b
            invariant
                a <= b < v@.len(),
                forall|x: int| 0 <= x < a ==> v@[x] != v@[b as int],
            decreases b - a,
        {
            if v[a] == v[b] {
                assert(v@[a as int] == v@[b as int]);
                return true;
            }
            a = a + 1;
        }
        b = b + 1;
    }
    false
}

/// A comma separated list of registers at `i`.
pub fn get_reg_set(t: &[Token], i: usize) -> (res: Result<(Vec<RegEnum>, usize), ParseError>)
    ensures
        match res {
            Ok((v, n)) => reg_set(t@, i) == Ok::<(Seq<RegEnum>, usize), ParseError>((v@, n)),
            Err(e) => reg_set(t@, i) == Err::<(Seq<RegEnum>, usize), ParseError>(e),
        },
{
    let (r, n) = match get_register(t, i) {
        Ok(x) => x,
        Err(e) => {
            return Err(e);
        },
    };
    let mut regs: Vec<RegEnum> = vec![r];
    let mut pos: usize = n;
    loop
        invariant
            pos <= t@.len() <= usize::MAX,
            seq![r] + more_regs(t@, n).0 == regs@ + more_regs(t@, pos).0,
            more_regs(t@, n).1 == more_regs(t@, pos).1,
        ensures
            more_regs(t@, pos) == (Seq::<RegEnum>::empty(), pos),
        decreases t@.len() - pos,
    {
        if !is_tag(t, pos, &Token::Comma) {
            break;
        }
        match get_register(t, pos + 1) {
            Ok((r2, m)) => {
                let ghost before = regs@;
                regs.push(r2);
                proof {
                    let rest = more_regs(t@, m);
                    assert(more_regs(t@, pos) == (seq![r2] + rest.0, rest.1));
                    assert(before + (seq![r2] + rest.0) =~= regs@ + rest.0);
                }
                pos = m;
            },
            Err(_) => {
                break;
            },
        }
    }
    proof {
        assert(more_regs(t@, pos).0 =~= Seq::<RegEnum>::empty());
        assert(regs@ + Seq::<RegEnum>::empty() =~= regs@);
    }
    if has_duplicate(&regs) {
        Err(ParseError { pos: i, code: ErrCode::DuplicateRegisters6809, fatal: true })
    } else {
        Ok((regs, pos))
    }
}

/// Two registers separated by a comma at `i`.
pub fn parse_opcode_reg_pair(t: &[Token], i: usize) -> (res: Result<((RegEnum, RegEnum), usize), ParseError>)
    ensures
        res == reg_pair(t@, i),
{
    match get_register(t, i) {
        Err(e) => Err(e),
        Ok((a, n)) => {
            if !is_tag(t, n, &Token::Comma) {
                Err(ParseError { pos: n, code: ErrCode::NoMatch, fatal: false })
            } else {
                match cut_exec(get_register(t, n + 1)) {
                    Err(e) => Err(e),
                    Ok((b, m)) => Ok(((a, b), m)),
                }
            }
        },
    }
}

/// How an instruction's operand is to be read.
#[derive(Debug, Clone, Copy, PartialEq, Eq, Structural)]
pub enum OperandKind {
    /// `#expr`
    Immediate,
    /// Bracketed, or holding a comma.
    Indexed,
    /// `<expr`
    Direct,
    /// `>expr`
    ForcedExtended,
    /// `expr`
    Extended,
}

/// How the operand `t` is read: by its first token, except that an operand
/// that opens a bracket or holds a comma anywhere is indexed (no 6809
/// expression holds a comma).
pub open spec fn operand_kind(t: Seq<Token>) -> OperandKind {
    if tag(t, 0, Token::Hash) {
        OperandKind::Immediate
    } else if tag(t, 0, Token::OpenSquareBracket) || exists|k: int|
        0 <= k < t.len() && #[trigger] t[k] == Token::Comma {
        OperandKind::Indexed
    } else if tag(t, 0, Token::LessThan) {
        OperandKind::Direct
    } else if tag(t, 0, Token::GreaterThan) {
        OperandKind::ForcedExtended
    } else {
        OperandKind::Extended
    }
}

/// How the operand `t` is read.
pub fn get_operand_kind(t: &[Token]) -> (res: OperandKind)
    ensures
        res == operand_kind(t@),
{
    if is_tag(t, 0, &Token::Hash) {
        return OperandKind::Immediate;
    }
    let mut k: usize = 0;
    while k < t.len()
        invariant
            k <= t@.len(),
            !tag(t@, 0, Token::Hash),
            forall|j: int| 0 <= j < k ==> t@[j] != Token::Comma,
        decreases t@.len() - k,
    {
        if is_tag(t, k, &Token::Comma) {
            assert(t@[k as int] == Token::Comma);
            return OperandKind::Indexed;
        }
        k = k + 1;
    }
    if is_tag(t, 0, &Token::OpenSquareBracket) {
        OperandKind::Indexed
    } else if is_tag(t, 0, &Token::LessThan) {
        OperandKind::Direct
    } else if is_tag(t, 0, &Token::GreaterThan) {
        OperandKind::ForcedExtended
    } else {
        OperandKind::Extended
    }
}

/// The form of a successful parse has no offset width decided, and is a
/// PC offset or can be encoded.
pub open spec fn form_ok(r: Result<(IndexParseType, usize), ParseError>) -> bool {
    match r {
        Ok((f, _)) => is_unsized(f) && (f is PCOffset || f.is_encodable()),
        Err(_) => true,
    }
}

/// Each form the indexed grammar accepts at `j` is a PC offset or has index
/// registers only.
proof fn lemma_indexed_form_ok(t: Seq<Token>, j: usize)
    ensures
        form_ok(indexed(t, j)),
{
    let n = (j + 1) as usize;
    assert(form_ok(pre_dec_dec(t, n)));
    assert(form_ok(pre_dec(t, n)));
    assert(form_ok(post_inc_inc(t, n)));
    assert(form_ok(post_inc(t, n)));
    assert(form_ok(pc_offset(t, n)));
    assert(form_ok(zero(t, n)));
    assert(form_ok(indexed_direct(t, j)));
    assert(form_ok(abd_indexed(t, j)));
}

/// Every indexed operand the grammar accepts is one whose offset width
/// sizing decides, and can be encoded once sized: its registers are index
/// registers, and a PC offset is given a width by its value.
pub proof fn lemma_parsed_indexed_encodable(t: Seq<Token>, i: usize, v: i64)
    requires
        indexed_operand(t, i) is Ok,
    ensures
        ({
            let ((m, indirect), _) = indexed_operand(t, i)->Ok_0;
            &&& is_unsized(m)
            &&& sized_form(m, indirect, v).is_encodable()
        }),
{
    lemma_indexed_form_ok(t, i);
    lemma_indexed_form_ok(t, (i + 1) as usize);
}

/// Why an instruction cannot take its operand.
#[derive(Debug, Clone, Copy, PartialEq, Eq, Structural)]
pub enum Cpu6809AssemblyErrorKind {
    /// The mnemonic has no row for this operand form.
    ThisAddrModeUnsupported(AddrModeParseType),
    /// The operand is not one an instruction takes.
    AddrModeUnsupported,
    /// The mnemonic takes only this form.
    OnlySupports(AddrModeParseType),
}

/// How the operand of a mnemonic is read: as a register list, as a
/// register pair, or as a general operand.
#[derive(Debug, Clone, Copy, PartialEq, Eq, Structural)]
pub enum OperandSyntax {
    RegisterSet,
    RegisterPair,
    General,
}

/// How the operand of the mnemonic with rows `rows` is read: a register
/// list where it has a register-set row, else a register pair where it has
/// a register-pair row, else a general operand.
pub open spec fn syntax_of(rows: Seq<Instruction>) -> OperandSyntax {
    if find_row(rows, AddrModeEnum::RegisterSet) is Some {
        OperandSyntax::RegisterSet
    } else if find_row(rows, AddrModeEnum::RegisterPair) is Some {
        OperandSyntax::RegisterPair
    } else {
        OperandSyntax::General
    }
}

/// How the operand of the mnemonic `info` is read.
pub fn operand_syntax(info: &InstructionInfo) -> (res: OperandSyntax)
    ensures
        res == syntax_of(info.rows@),
{
    if info.supports_addr_mode(AddrModeEnum::RegisterSet) {
        OperandSyntax::RegisterSet
    } else if info.supports_addr_mode(AddrModeEnum::RegisterPair) {
        OperandSyntax::RegisterPair
    } else {
        OperandSyntax::General
    }
}

/// The row of the mnemonic `info` written without an operand: its inherent
/// row, where it has one.
pub fn opcode_without_operand(info: &InstructionInfo) -> (res: Result<Instruction, Cpu6809AssemblyErrorKind>)
    ensures
        match find_row(info.rows@, AddrModeEnum::Inherent) {
            Some(r) => res == Ok::<Instruction, Cpu6809AssemblyErrorKind>(r),
            None => res == Err::<Instruction, Cpu6809AssemblyErrorKind>(
                Cpu6809AssemblyErrorKind::OnlySupports(AddrModeParseType::Inherent),
            ),
        },
{
    match info.get_instruction(&AddrModeEnum::Inherent) {
        Some(r) => Ok(*r),
        None => Err(Cpu6809AssemblyErrorKind::OnlySupports(AddrModeParseType::Inherent)),
    }
}

/// The row of the mnemonic `info` for an operand of form `amode`, where it
/// has one.
pub fn opcode_for_operand(info: &InstructionInfo, amode: AddrModeParseType) -> (res: Result<
    Instruction,
    Cpu6809AssemblyErrorKind,
>)
    ensures
        match row_for(info.rows@, amode) {
            Some(r) => res == Ok::<Instruction, Cpu6809AssemblyErrorKind>(r),
            None => res == Err::<Instruction, Cpu6809AssemblyErrorKind>(
                Cpu6809AssemblyErrorKind::ThisAddrModeUnsupported(amode),
            ),
        },
{
    match get_instruction(amode, info) {
        Some(r) => Ok(*r),
        None => Err(Cpu6809AssemblyErrorKind::ThisAddrModeUnsupported(amode)),
    }
}

/// The commands of the 6809 frontend.
#[derive(Debug, Clone, Copy, PartialEq, Eq, Structural)]
pub enum CommandKind {
    SetDp,
}

/// What an identifier is lexed as.
#[derive(Debug, Clone, Copy, PartialEq, Eq, Structural)]
pub enum IdentifierKind {
    CpuOpcode(CpuKind),
    Command(CommandKind),
    Label,
}

/// How the identifier `text` is lexed: as a 6809 mnemonic where the
/// instruction set knows its lower-case spelling (`is_mnemonic`, the
/// answer of the instruction set's lookup), else as the `setdp` command in
/// any case, else as a label.
pub fn lex_identifier(text: &str, is_mnemonic: bool) -> (res: IdentifierKind)
    ensures
        res == if is_mnemonic {
            IdentifierKind::CpuOpcode(CpuKind::Cpu6809)
        } else if same_name(text@, seq!['s', 'e', 't', 'd', 'p']) {
            IdentifierKind::Command(CommandKind::SetDp)
        } else {
            IdentifierKind::Label
        },
{
    proof {
        reveal_strlit("setdp");
        assert("setdp"@ =~= seq!['s', 'e', 't', 'd', 'p']);
    }
    if is_mnemonic {
        IdentifierKind::CpuOpcode(CpuKind::Cpu6809)
    } else if matches_name(text, "setdp") {
        IdentifierKind::Command(CommandKind::SetDp)
    } else {
        IdentifierKind::Label
    }
}

} // verus!

verus! {

/// Token `k` of `t` is a name of the register `r`.
pub open spec fn names_reg(t: Seq<Token>, k: int, r: RegEnum) -> bool {
    0 <= k < t.len() && (t[k] matches Token::Identifier(s) && reg_named(s@) == Some(r))
}

/// Entry `k` of the register list `regs` read at `i` is written at
/// `i + 2k`, and a comma follows it unless it is the last.
pub open spec fn listed_at(t: Seq<Token>, i: int, regs: Seq<RegEnum>, k: int) -> bool {
    &&& names_reg(t, i + 2 * k, regs[k])
    &&& k + 1 < regs.len() ==> 0 <= i + 2 * k + 1 < t.len() && t[i + 2 * k + 1] == Token::Comma
}

/// Registers that follow a list at `n`, each a comma and a register name.
spec fn follows_at(t: Seq<Token>, n: int, rs: Seq<RegEnum>, k: int) -> bool {
    0 <= n + 2 * k < t.len() && t[n + 2 * k] == Token::Comma && names_reg(t, n + 2 * k + 1, rs[k])
}

proof fn lemma_more_regs_written(t: Seq<Token>, n: usize)
    ensures
        more_regs(t, n).1 == n + 2 * more_regs(t, n).0.len(),
        forall|k: int|
            0 <= k < more_regs(t, n).0.len() ==> #[trigger] follows_at(t, n as int, more_regs(t, n).0, k),
    decreases t.len() - n,
{
    if n + 2 <= t.len() && n + 2 <= usize::MAX && tag(t, n, Token::Comma) && register(
        t,
        (n + 1) as usize,
    ) is Ok {
        let (r, m) = register(t, (n + 1) as usize)->Ok_0;
        lemma_more_regs_written(t, m);
        let rest = more_regs(t, m);
        assert(m == n + 2);
        assert(more_regs(t, n).0 == seq![r] + rest.0);
        assert forall|k: int| 0 <= k < more_regs(t, n).0.len() implies #[trigger] follows_at(
            t,
            n as int,
            more_regs(t, n).0,
            k,
        ) by {
            if k == 0 {
                assert(more_regs(t, n).0[0] == r);
            } else {
                assert(follows_at(t, m as int, rest.0, k - 1));
                assert(more_regs(t, n).0[k] == rest.0[k - 1]);
                assert(m + 2 * (k - 1) == n + 2 * k);
            }
        }
    } else {
        assert(more_regs(t, n).0.len() == 0);
    }
}

/// A register list read at `i` holds exactly the registers written there,
/// in the order written: the first at `i`, each further one after a comma
/// (`listed_at`), none of them twice; the parse ends after the last one.
pub proof fn lemma_reg_set_written(t: Seq<Token>, i: usize)
    requires
        t.len() <= usize::MAX,
        reg_set(t, i) is Ok,
    ensures
        ({
            let (regs, n) = reg_set(t, i)->Ok_0;
            &&& regs.len() >= 1
            &&& n == i + 2 * regs.len() - 1
            &&& forall|k: int| 0 <= k < regs.len() ==> #[trigger] listed_at(t, i as int, regs, k)
            &&& forall|a: int, b: int| 0 <= a < b < regs.len() ==> regs[a] != regs[b]
        }),
{
    assert(register(t, i) is Ok);
    let (r, n0) = register(t, i)->Ok_0;
    assert(n0 == i + 1);
    let more = more_regs(t, n0).0;
    let regs = seq![r] + more;
    lemma_more_regs_written(t, n0);
    assert(reg_set(t, i)->Ok_0.0 == regs);
    assert forall|k: int| 0 <= k < regs.len() implies #[trigger] listed_at(t, i as int, regs, k) by {
        if k > 0 {
            assert(follows_at(t, n0 as int, more, k - 1));
            assert(regs[k] == more[k - 1]);
            assert(n0 + 2 * (k - 1) + 1 == i + 2 * k);
        }
        if k + 1 < regs.len() {
            assert(follows_at(t, n0 as int, more, k));
            assert(n0 + 2 * k == i + 2 * k + 1);
        }
    }
}

/// A register pair read at `i` is the register written at `i`, a comma, and
/// the register written after it, in that order; the parse ends after the
/// second.
pub proof fn lemma_reg_pair_written(t: Seq<Token>, i: usize)
    requires
        t.len() <= usize::MAX,
        reg_pair(t, i) is Ok,
    ensures
        ({
            let ((a, b), n) = reg_pair(t, i)->Ok_0;
            &&& names_reg(t, i as int, a)
            &&& t[i + 1] == Token::Comma
            &&& names_reg(t, i + 2, b)
            &&& n == i + 3
        }),
{
    assert(register(t, i) is Ok);
    let (a, n) = register(t, i)->Ok_0;
    assert(n == i + 1);
    assert(tag(t, n, Token::Comma));
    assert(cut(register(t, (n + 1) as usize)) is Ok);
    assert(register(t, (n + 1) as usize) is Ok);
}

} // verus!

verus! {

/// The assembler's name of a register, in small letters.
pub open spec fn reg_name(r: RegEnum) -> Seq<char> {
    match r {
        RegEnum::A => seq!['a'],
        RegEnum::B => seq!['b'],
        RegEnum::D => seq!['d'],
        RegEnum::X => seq!['x'],
        RegEnum::Y => seq!['y'],
        RegEnum::U => seq!['u'],
        RegEnum::S => seq!['s'],
        RegEnum::PC => seq!['p', 'c'],
        RegEnum::CC => seq!['c', 'c'],
        RegEnum::DP => seq!['d', 'p'],
    }
}

/// The name of a register in capitals.
pub open spec fn reg_name_caps(r: RegEnum) -> Seq<char> {
    match r {
        RegEnum::A => seq!['A'],
        RegEnum::B => seq!['B'],
        RegEnum::D => seq!['D'],
        RegEnum::X => seq!['X'],
        RegEnum::Y => seq!['Y'],
        RegEnum::U => seq!['U'],
        RegEnum::S => seq!['S'],
        RegEnum::PC => seq!['P', 'C'],
        RegEnum::CC => seq!['C', 'C'],
        RegEnum::DP => seq!['D', 'P'],
    }
}

proof fn lemma_same_name_short(s: Seq<char>, n: Seq<char>)
    requires
        1 <= n.len() <= 2,
    ensures
        same_name(s, n) == (s.len() == n.len() && lower_code(s[0]) == n[0] as u32 && (n.len() == 2
            ==> lower_code(s[1]) == n[1] as u32)),
{
    if s.len() == n.len() && lower_code(s[0]) == n[0] as u32 && (n.len() == 2 ==> lower_code(s[1])
        == n[1] as u32) {
        assert forall|i: int| 0 <= i < s.len() implies lower_code(#[trigger] s[i]) == n[i] as u32 by {
            if i == 1 {
            }
        }
    }
}

/// Every register is read from its own name, in small letters or in
/// capitals, and from no other register's name.
pub proof fn lemma_register_named(r: RegEnum, q: RegEnum)
    ensures
        reg_named(reg_name(r)) == Some(r),
        reg_named(reg_name_caps(r)) == Some(r),
        r != q ==> reg_name(r) != reg_name(q),
{
    let names: Seq<Seq<char>> = seq![seq!['a'], seq!['b'], seq!['d'], seq!['x'], seq!['y'], seq!['u'], seq!['s'], seq!['p', 'c'], seq!['c', 'c'], seq!['d', 'p']];
    let s = reg_name(r);
    let c = reg_name_caps(r);
    assert forall|k: int| 0 <= k < names.len() implies #[trigger] same_name(s, names[k]) == (names[k] == s) && same_name(c, names[k]) == (names[k] == s) by {
        lemma_same_name_short(s, names[k]);
        lemma_same_name_short(c, names[k]);
    }
    assert(same_name(s, names[0]) == same_name(s, seq!['a']));
    assert(same_name(s, names[1]) == same_name(s, seq!['b']));
    assert(same_name(s, names[2]) == same_name(s, seq!['d']));
    assert(same_name(s, names[3]) == same_name(s, seq!['x']));
    assert(same_name(s, names[4]) == same_name(s, seq!['y']));
    assert(same_name(s, names[5]) == same_name(s, seq!['u']));
    assert(same_name(s, names[6]) == same_name(s, seq!['s']));
    assert(same_name(s, names[7]) == same_name(s, seq!['p', 'c']));
    assert(same_name(s, names[8]) == same_name(s, seq!['c', 'c']));
    assert(same_name(s, names[9]) == same_name(s, seq!['d', 'p']));
    assert(same_name(c, names[0]) == same_name(c, seq!['a']));
    assert(same_name(c, names[1]) == same_name(c, seq!['b']));
    assert(same_name(c, names[2]) == same_name(c, seq!['d']));
    assert(same_name(c, names[3]) == same_name(c, seq!['x']));
    assert(same_name(c, names[4]) == same_name(c, seq!['y']));
    assert(same_name(c, names[5]) == same_name(c, seq!['u']));
    assert(same_name(c, names[6]) == same_name(c, seq!['s']));
    assert(same_name(c, names[7]) == same_name(c, seq!['p', 'c']));
    assert(same_name(c, names[8]) == same_name(c, seq!['c', 'c']));
    assert(same_name(c, names[9]) == same_name(c, seq!['d', 'p']));
    if r != q && reg_name(r) == reg_name(q) {
        match r {
            RegEnum::A => { assert(reg_name(q)[0] == 'a'); },
            RegEnum::B => { assert(reg_name(q)[0] == 'b'); },
            RegEnum::D => { assert(reg_name(q)[0] == 'd'); },
            RegEnum::X => { assert(reg_name(q)[0] == 'x'); },
            RegEnum::Y => { assert(reg_name(q)[0] == 'y'); },
            RegEnum::U => { assert(reg_name(q)[0] == 'u'); },
            RegEnum::S => { assert(reg_name(q)[0] == 's'); },
            RegEnum::PC => { assert(reg_name(q)[0] == 'p'); },
            RegEnum::CC => { assert(reg_name(q)[0] == 'c'); },
            RegEnum::DP => { assert(reg_name(q)[1] == 'p'); },
        }
    }
}

} // verus!

verus! {

/// Token `k` of `t` is `tok`.
pub open spec fn token_at(t: Seq<Token>, k: int, tok: Token) -> bool {
    0 <= k < t.len() && t[k] == tok
}

/// The tokens from `i` up to `n` spell the indexed form `m` with index
/// register names as the assembler writes them: `,R` (not followed by
/// `+`), `,R+` (not followed by another `+`), `,R++`, `,-R`, `,--R`,
/// `,PC`, and `A,R`, `B,R`, `D,R`; every `R` is X, Y, U or S.
pub open spec fn spells_form(t: Seq<Token>, i: int, m: IndexParseType, n: int) -> bool {
    match m {
        IndexParseType::Zero(r) => token_at(t, i, Token::Comma) && names_reg(t, i + 1, r)
            && !token_at(t, i + 2, Token::Plus) && n == i + 2 && r.spec_valid_for_index(),
        IndexParseType::PostInc(r) => token_at(t, i, Token::Comma) && names_reg(t, i + 1, r)
            && token_at(t, i + 2, Token::Plus) && !token_at(t, i + 3, Token::Plus) && n == i + 3
            && r.spec_valid_for_index(),
        IndexParseType::PostIncInc(r) => token_at(t, i, Token::Comma) && names_reg(t, i + 1, r)
            && token_at(t, i + 2, Token::Plus) && token_at(t, i + 3, Token::Plus) && n == i + 4
            && r.spec_valid_for_index(),
        IndexParseType::PreDec(r) => token_at(t, i, Token::Comma) && token_at(t, i + 1, Token::Minus)
            && names_reg(t, i + 2, r) && n == i + 3 && r.spec_valid_for_index(),
        IndexParseType::PreDecDec(r) => token_at(t, i, Token::Comma) && token_at(t, i + 1, Token::Minus)
            && token_at(t, i + 2, Token::Minus) && names_reg(t, i + 3, r) && n == i + 4
            && r.spec_valid_for_index(),
        IndexParseType::PCOffset => token_at(t, i, Token::Comma) && names_reg(t, i + 1, RegEnum::PC)
            && n == i + 2,
        IndexParseType::AddA(r) => names_reg(t, i, RegEnum::A) && token_at(t, i + 1, Token::Comma)
            && names_reg(t, i + 2, r) && n == i + 3 && r.spec_valid_for_index(),
        IndexParseType::AddB(r) => names_reg(t, i, RegEnum::B) && token_at(t, i + 1, Token::Comma)
            && names_reg(t, i + 2, r) && n == i + 3 && r.spec_valid_for_index(),
        IndexParseType::AddD(r) => names_reg(t, i, RegEnum::D) && token_at(t, i + 1, Token::Comma)
            && names_reg(t, i + 2, r) && n == i + 3 && r.spec_valid_for_index(),
        _ => false,
    }
}

/// An indexed form read at `i` is the form its tokens spell: which of the
/// forms it is, its register, and where it ends all follow the text.
pub proof fn lemma_indexed_spells_form(t: Seq<Token>, i: usize)
    requires
        t.len() <= usize::MAX,
    ensures
        indexed(t, i) matches Ok((m, n)) ==> spells_form(t, i as int, m, n as int),
{
}

} // verus!
