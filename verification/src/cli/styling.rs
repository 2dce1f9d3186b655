//! The banner the command line shows, a line per colour.
use vstd::prelude::*;
use colored::{Color, Colorize};

verus! {

/// A colour by its red, green and blue parts.
#[derive(Debug, Clone, Copy, PartialEq, Eq, Structural)]
pub struct Rgb {
    pub r: u8,
    pub g: u8,
    pub b: u8,
}

/// The escape that ends a styled stretch of text.
pub open spec fn reset() -> Seq<char> {
    seq!['\x1B', '[', '0', 'm']
}

/// `text` under the style `style`.
pub open spec fn styled(style: Seq<char>, text: Seq<char>) -> Seq<char> {
    style + text + reset()
}

/// The decimal digits of `n`, as `Display` writes a `u8`.
pub open spec fn decimal(n: u8) -> Seq<char> {
    let v = n as int;
    if v < 10 {
        seq![digit(v)]
    } else if v < 100 {
        seq![digit(v / 10), digit(v % 10)]
    } else {
        seq![digit(v / 100), digit((v / 10) % 10), digit(v % 10)]
    }
}

/// The character of the decimal digit `d` (below ten).
pub open spec fn digit(d: int) -> char {
    if d == 0 {
        '0'
    } else if d == 1 {
        '1'
    } else if d == 2 {
        '2'
    } else if d == 3 {
        '3'
    } else if d == 4 {
        '4'
    } else if d == 5 {
        '5'
    } else if d == 6 {
        '6'
    } else if d == 7 {
        '7'
    } else if d == 8 {
        '8'
    } else {
        '9'
    }
}

/// The style that sets bold text and `c` as a 24-bit foreground colour.
pub open spec fn truecolor_style(c: Rgb) -> Seq<char> {
    seq!['\x1B', '[', '1', ';', '3', '8', ';', '2', ';'] + decimal(c.r) + seq![';'] + decimal(c.g) + seq![';']
        + decimal(c.b) + seq!['m']
}

/// The foreground code of the standard terminal colour that `colored`
/// takes as the nearest to the colour `r`, `g`, `b` where the terminal does
/// not announce true colour.
pub uninterp spec fn nearest_ansi_fg(r: u8, g: u8, b: u8) -> Seq<char>;

/// A foreground code of one of the sixteen standard colours: `30` to `37`
/// or `90` to `97`.
pub open spec fn ansi_fg_code(code: Seq<char>) -> bool {
    &&& code.len() == 2
    &&& (code[0] == '3' || code[0] == '9')
    &&& '0' <= code[1] <= '7'
}

/// The style that sets bold text and the standard colour nearest to `c`.
pub open spec fn ansi_style(c: Rgb) -> Seq<char> {
    seq!['\x1B', '[', '1', ';'] + nearest_ansi_fg(c.r, c.g, c.b) + seq!['m']
}

/// `out` is `text` painted bold in `c`: unchanged where colouring is off,
/// else under the true-colour style or the style of the nearest standard
/// colour.
pub open spec fn painted(out: Seq<char>, text: Seq<char>, c: Rgb) -> bool {
    ||| out == text
    ||| out == styled(truecolor_style(c), text)
    ||| out == styled(ansi_style(c), text) && ansi_fg_code(nearest_ansi_fg(c.r, c.g, c.b))
}

/// `s` holds no escape character.
pub open spec fn no_escape(s: Seq<char>) -> bool {
    forall|i: int| 0 <= i < s.len() ==> s[i] != '\x1B'
}

/// The lines of `s`: the pieces between its line feeds.
pub open spec fn split_lines(s: Seq<char>) -> Seq<Seq<char>>
    decreases s.len(),
{
    if s.len() == 0 {
        seq![Seq::empty()]
    } else {
        let rest = split_lines(s.drop_last());
        if s.last() == '\n' {
            rest.push(Seq::empty())
        } else {
            rest.update(rest.len() - 1, rest.last().push(s.last()))
        }
    }
}

/// Each of `lines` followed by a line feed.
pub open spec fn terminated(lines: Seq<Seq<char>>) -> Seq<char>
    decreases lines.len(),
{
    if lines.len() == 0 {
        Seq::empty()
    } else {
        terminated(lines.drop_last()) + lines.last() + seq!['\n']
    }
}

/// `lines` joined by line feeds.
pub open spec fn join_lines(lines: Seq<Seq<char>>) -> Seq<char> {
    if lines.len() == 0 {
        Seq::empty()
    } else {
        terminated(lines.drop_last()) + lines.last()
    }
}

/// `out` is the lines of `lines` joined by line feeds, the `i`th painted
/// in `colours[i % len]`.
pub open spec fn painted_lines(out: Seq<char>, lines: Seq<Seq<char>>, colours: Seq<Rgb>) -> bool {
    exists|outs: Seq<Seq<char>>|
        #![trigger join_lines(outs)]
        {
            &&& outs.len() == lines.len()
            &&& forall|i: int|
                0 <= i < lines.len() ==> painted(#[trigger] outs[i], lines[i], colours[i % (colours.len() as int)])
            &&& out == join_lines(outs)
        }
}

/// `text` in bold, in the colour `colour`, as the terminal shows it.
///
/// Calls `colored`'s `bold`, `color` and the `Display` of its
/// `ColoredString`. Where the environment turns colouring off, the text
/// comes back unchanged; else it comes back between the style `ESC [ 1 ;`,
/// the colour's foreground code, `m`, and the reset escape. The code is
/// `38;2;r;g;b` where `COLORTERM` announces true colour, else that of the
/// standard colour nearest to `colour` (named here, not spelled out; it
/// is one of the sixteen codes `30`-`37`, `90`-`97`).
/// Which of the three comes back depends on the environment at the time of
/// the call. `text` holds no escape, so there is no inner reset to rewrite.
#[verifier::external_body]
fn paint_bold(text: &str, colour: Rgb) -> (res: String)
    requires
        no_escape(text@),
    ensures
        res@ == text@ || res@ == styled(truecolor_style(colour), text@) || (res@ == styled(
            seq!['\x1B', '[', '1', ';'] + nearest_ansi_fg(colour.r, colour.g, colour.b) + seq!['m'],
            text@,
        ) && ansi_fg_code(nearest_ansi_fg(colour.r, colour.g, colour.b))),
{
    text.bold().color(Color::TrueColor { r: colour.r, g: colour.g, b: colour.b }).to_string()
}

/// Each line of `txt` in bold, the `i`th in the colour `colours[i % len]`,
/// joined by line feeds.
fn colour_lines(txt: &str, colours: &[Rgb]) -> (res: String)
    requires
        colours@.len() > 0,
        no_escape(txt@),
    ensures
        painted_lines(res@, split_lines(txt@), colours@),
{
    let n = txt.unicode_len();
    let mut res = String::new();
    let mut start: usize = 0;
    let mut line: usize = 0;
    let mut i: usize = 0;
    let ghost mut pieces: Seq<Seq<char>> = Seq::empty();
    let ghost mut outs: Seq<Seq<char>> = Seq::empty();
    proof {
        assert(txt@.subrange(0, 0) =~= Seq::<char>::empty());
        assert(pieces.push(txt@.subrange(0, 0)) =~= seq![Seq::<char>::empty()]);
    }
    while i < n
        invariant
            n == txt@.len(),
            start <= i <= n,
            colours@.len() > 0,
            no_escape(txt@),
            line == pieces.len(),
            outs.len() == pieces.len(),
            line <= i,
            split_lines(txt@.subrange(0, i as int)) == pieces.push(txt@.subrange(start as int, i as int)),
            forall|k: int|
                0 <= k < pieces.len() ==> painted(#[trigger] outs[k], pieces[k], colours@[k % (colours@.len() as int)]),
            res@ == terminated(outs),
        decreases n - i,
    {
        let c = txt.get_char(i);
        proof {
            let pre = txt@.subrange(0, i as int + 1);
            assert(pre.drop_last() =~= txt@.subrange(0, i as int));
            assert(pre.last() == c);
        }
        if c == '\n' {
            let piece = txt.substring_char(start, i);
            let painted_piece = paint_bold(piece, colours[line % colours.len()]);
            res.append(painted_piece.as_str());
            res.append("\n");
            proof {
                reveal_strlit("\n");
                let old_outs = outs;
                outs = outs.push(painted_piece@);
                pieces = pieces.push(piece@);
                assert(outs.drop_last() =~= old_outs);
                assert(txt@.subrange(i as int + 1, i as int + 1) =~= Seq::<char>::empty());
            }
            line = line + 1;
            start = i + 1;
        } else {
            proof {
                let prev = txt@.subrange(start as int, i as int);
                assert(txt@.subrange(start as int, i as int + 1) =~= prev.push(c));
                assert(pieces.push(prev).update(pieces.len() as int, prev.push(c)) =~= pieces.push(
                    prev.push(c),
                ));
            }
        }
        i = i + 1;
    }
    let last = txt.substring_char(start, n);
    let painted_last = paint_bold(last, colours[line % colours.len()]);
    res.append(painted_last.as_str());
    proof {
        assert(txt@.subrange(0, n as int) =~= txt@);
        let all = outs.push(painted_last@);
        assert(all.drop_last() =~= outs);
        assert(res@ == join_lines(all));
        let lines = pieces.push(last@);
        assert forall|k: int|
            0 <= k < lines.len() implies painted(#[trigger] all[k], lines[k], colours@[k % (colours@.len() as int)]) by {
            if k < pieces.len() {
                assert(all[k] == outs[k]);
                assert(lines[k] == pieces[k]);
            }
        }
    }
    res
}

/// The banner the command line shows.
pub open spec fn banner_text() -> Seq<char> {
    BANNER@
}

/// The banner's text.
pub const BANNER: &'static str = r"
  __ _  __ _ _____ __ ___
 / _` |/ _` |_  / '_ ` _ \
| (_| | (_| |/ /| | | | | |
 \__, |\__,_/___|_| |_| |_|
 |___/ Assembler (currently only 6809)";

/// No escape from position `i` of `s` on.
pub open spec fn no_escape_from(s: Seq<char>, i: nat) -> bool
    decreases s.len() - i,
{
    if i >= s.len() {
        true
    } else {
        s[i as int] != '\x1B' && no_escape_from(s, i + 1)
    }
}

/// `no_escape_from` at `i` holds of every position from `i` on.
proof fn lemma_no_escape_from(s: Seq<char>, i: nat)
    requires
        no_escape_from(s, i),
    ensures
        forall|j: int| i <= j < s.len() ==> s[j] != '\x1B',
    decreases s.len() - i,
{
    if i < s.len() {
        lemma_no_escape_from(s, i + 1);
    }
}

/// The banner holds no escape character.
proof fn lemma_banner_plain()
    ensures
        no_escape(banner_text()),
{
    reveal_strlit(r"
  __ _  __ _ _____ __ ___
 / _` |/ _` |_  / '_ ` _ \
| (_| | (_| |/ /| | | | | |
 \__, |\__,_/___|_| |_| |_|
 |___/ Assembler (currently only 6809)");
    assert(banner_text().len() == 148);
    reveal_with_fuel(no_escape_from, 9);
    assert(no_escape_from(banner_text(), 148));
    assert(no_escape_from(banner_text(), 144));
    assert(no_escape_from(banner_text(), 136));
    assert(no_escape_from(banner_text(), 128));
    assert(no_escape_from(banner_text(), 120));
    assert(no_escape_from(banner_text(), 112));
    assert(no_escape_from(banner_text(), 104));
    assert(no_escape_from(banner_text(), 96));
    assert(no_escape_from(banner_text(), 88));
    assert(no_escape_from(banner_text(), 80));
    assert(no_escape_from(banner_text(), 72));
    assert(no_escape_from(banner_text(), 64));
    assert(no_escape_from(banner_text(), 56));
    assert(no_escape_from(banner_text(), 48));
    assert(no_escape_from(banner_text(), 40));
    assert(no_escape_from(banner_text(), 32));
    assert(no_escape_from(banner_text(), 24));
    assert(no_escape_from(banner_text(), 16));
    assert(no_escape_from(banner_text(), 8));
    assert(no_escape_from(banner_text(), 0));
    lemma_no_escape_from(banner_text(), 0);
}

/// The colours of the rainbow, from red to violet.
pub open spec fn rainbow() -> Seq<Rgb> {
    seq![
        Rgb { r: 255, g: 127, b: 127 },
        Rgb { r: 255, g: 127, b: 0 },
        Rgb { r: 255, g: 255, b: 0 },
        Rgb { r: 0, g: 255, b: 0 },
        Rgb { r: 0, g: 0, b: 255 },
        Rgb { r: 75, g: 0, b: 30 },
        Rgb { r: 148, g: 0, b: 211 },
    ]
}

/// The banner, each line in bold and in the next colour of the rainbow,
/// from red at the top to violet at the bottom; with the styles taken
/// out, the banner's text.
pub fn get_banner() -> (res: String)
    ensures
        painted_lines(res@, split_lines(banner_text()), rainbow()),
        strip_styles(res@) == banner_text(),
{
    let palette: [Rgb; 7] = [
        Rgb { r: 255, g: 127, b: 127 },
        Rgb { r: 255, g: 127, b: 0 },
        Rgb { r: 255, g: 255, b: 0 },
        Rgb { r: 0, g: 255, b: 0 },
        Rgb { r: 0, g: 0, b: 255 },
        Rgb { r: 75, g: 0, b: 30 },
        Rgb { r: 148, g: 0, b: 211 },
    ];
    proof {
        lemma_banner_plain();
    }
    let colours = palette.as_slice();
    assert(colours@ =~= rainbow());
    let res = colour_lines(BANNER, colours);
    proof {
        lemma_unstyled_lines(res@, banner_text(), rainbow());
    }
    res
}


/// Index just past the first `m` of `s` at or after `i`, or the length of
/// `s` when there is none.
pub open spec fn past_m(s: Seq<char>, i: int) -> int
    decreases s.len() - i,
{
    if i < 0 || i >= s.len() {
        s.len() as int
    } else if s[i] == 'm' {
        i + 1
    } else {
        past_m(s, i + 1)
    }
}

/// The index past the next `m` lies between `i` and the length.
pub proof fn lemma_past_m_bounds(s: Seq<char>, i: int)
    requires
        0 <= i <= s.len(),
    ensures
        i <= past_m(s, i) <= s.len(),
    decreases s.len() - i,
{
    if i < s.len() {
        lemma_past_m_bounds(s, i + 1);
    }
}

/// `s` with each escape sequence (an escape, up to and with the next `m`)
/// taken out.
pub open spec fn strip_styles(s: Seq<char>) -> Seq<char>
    decreases s.len(),
{
    if s.len() == 0 {
        Seq::empty()
    } else if s[0] == '\x1B' {
        proof {
            lemma_past_m_bounds(s, 1);
        }
        strip_styles(s.subrange(past_m(s, 1), s.len() as int))
    } else {
        seq![s[0]] + strip_styles(s.drop_first())
    }
}

/// A style as `colored` writes one: an escape, then characters other than
/// `m`, then `m`.
pub open spec fn style_shaped(st: Seq<char>) -> bool {
    &&& st.len() >= 2
    &&& st[0] == '\x1B'
    &&& st.last() == 'm'
    &&& forall|i: int| 1 <= i < st.len() - 1 ==> st[i] != 'm'
}

proof fn lemma_past_m_at(x: Seq<char>, i: int, k: int)
    requires
        0 <= i <= k < x.len(),
        x[k] == 'm',
        forall|j: int| i <= j < k ==> x[j] != 'm',
    ensures
        past_m(x, i) == k + 1,
    decreases k - i,
{
    if i < k {
        lemma_past_m_at(x, i + 1, k);
    }
}

proof fn lemma_strip_plain(t: Seq<char>, u: Seq<char>)
    requires
        no_escape(t),
    ensures
        strip_styles(t + u) == t + strip_styles(u),
    decreases t.len(),
{
    if t.len() > 0 {
        let tu = t + u;
        assert(tu[0] == t[0]);
        assert(tu.drop_first() =~= t.drop_first() + u);
        lemma_strip_plain(t.drop_first(), u);
        assert(seq![t[0]] + t.drop_first() =~= t);
        assert(seq![t[0]] + (t.drop_first() + strip_styles(u)) =~= t + strip_styles(u));
    } else {
        assert(t + u =~= u);
    }
}

proof fn lemma_strip_style(st: Seq<char>, u: Seq<char>)
    requires
        style_shaped(st),
    ensures
        strip_styles(st + u) == strip_styles(u),
{
    let x = st + u;
    lemma_past_m_at(x, 1, st.len() - 1);
    assert(x.subrange(st.len() as int, x.len() as int) =~= u);
}

proof fn lemma_decimal_digits(n: u8)
    ensures
        forall|i: int| 0 <= i < decimal(n).len() ==> #[trigger] decimal(n)[i] != 'm' && decimal(n)[i] != '\x1B',
{
}

proof fn lemma_styles_shaped(c: Rgb)
    ensures
        style_shaped(truecolor_style(c)),
        ansi_fg_code(nearest_ansi_fg(c.r, c.g, c.b)) ==> style_shaped(ansi_style(c)),
        style_shaped(reset()),
{
    lemma_decimal_digits(c.r);
    lemma_decimal_digits(c.g);
    lemma_decimal_digits(c.b);
    let st = truecolor_style(c);
    let a = seq!['\x1B', '[', '1', ';', '3', '8', ';', '2', ';'];
    let dr = decimal(c.r);
    let dg = decimal(c.g);
    let db = decimal(c.b);
    assert forall|i: int| 1 <= i < st.len() - 1 implies st[i] != 'm' by {
        if i < a.len() {
        } else if i < a.len() + dr.len() {
            assert(st[i] == dr[i - a.len()]);
        } else if i == a.len() + dr.len() {
        } else if i < a.len() + dr.len() + 1 + dg.len() {
            assert(st[i] == dg[i - a.len() - dr.len() - 1]);
        } else if i == a.len() + dr.len() + 1 + dg.len() {
        } else {
            assert(st[i] == db[i - a.len() - dr.len() - 1 - dg.len() - 1]);
        }
    }
}

proof fn lemma_strip_line(out: Seq<char>, text: Seq<char>, c: Rgb, u: Seq<char>)
    requires
        painted(out, text, c),
        no_escape(text),
    ensures
        strip_styles(out + u) == text + strip_styles(u),
{
    lemma_styles_shaped(c);
    if out == text {
        lemma_strip_plain(text, u);
    } else {
        let st = if out == styled(truecolor_style(c), text) {
            truecolor_style(c)
        } else {
            ansi_style(c)
        };
        assert(out + u =~= st + (text + (reset() + u)));
        lemma_strip_style(st, text + (reset() + u));
        lemma_strip_plain(text, reset() + u);
        lemma_strip_style(reset(), u);
    }
}

proof fn lemma_strip_terminated(outs: Seq<Seq<char>>, lines: Seq<Seq<char>>, colours: Seq<Rgb>, u: Seq<char>)
    requires
        outs.len() <= lines.len(),
        colours.len() > 0,
        forall|i: int|
            0 <= i < outs.len() ==> painted(#[trigger] outs[i], lines[i], colours[i % (colours.len() as int)]),
        forall|i: int| 0 <= i < outs.len() ==> no_escape(#[trigger] lines[i]),
    ensures
        strip_styles(terminated(outs) + u) == terminated(lines.subrange(0, outs.len() as int)) + strip_styles(u),
    decreases outs.len(),
{
    let ls = lines.subrange(0, outs.len() as int);
    if outs.len() == 0 {
        assert(terminated(outs) + u =~= u);
        assert(terminated(ls) =~= Seq::<char>::empty());
    } else {
        let k = outs.len() - 1;
        let o = outs.last();
        let l = lines[k];
        let rest = seq!['\n'] + u;
        assert(terminated(outs) + u =~= terminated(outs.drop_last()) + (o + rest));
        lemma_strip_terminated(outs.drop_last(), lines, colours, o + rest);
        assert(lines.subrange(0, outs.drop_last().len() as int) =~= ls.drop_last());
        assert(painted(outs[k], lines[k], colours[k % (colours.len() as int)]));
        lemma_strip_line(o, l, colours[k % (colours.len() as int)], rest);
        assert(no_escape(seq!['\n']));
        lemma_strip_plain(seq!['\n'], u);
        assert(ls.last() == l);
        assert(terminated(ls) =~= terminated(ls.drop_last()) + l + seq!['\n']);
        assert(terminated(lines.subrange(0, outs.len() as int)) + strip_styles(u) =~= terminated(ls.drop_last()) + (l
            + (seq!['\n'] + strip_styles(u))));
    }
}

proof fn lemma_split_lines(s: Seq<char>)
    ensures
        split_lines(s).len() >= 1,
        join_lines(split_lines(s)) == s,
        no_escape(s) ==> forall|i: int|
            0 <= i < split_lines(s).len() ==> no_escape(#[trigger] split_lines(s)[i]),
    decreases s.len(),
{
    if s.len() > 0 {
        let p = s.drop_last();
        lemma_split_lines(p);
        let rest = split_lines(p);
        if s.last() == '\n' {
            let r2 = rest.push(Seq::empty());
            assert(r2.drop_last() =~= rest);
            assert(terminated(rest) =~= terminated(rest.drop_last()) + rest.last() + seq!['\n']);
            assert(join_lines(r2) =~= s);
            if no_escape(s) {
                assert forall|i: int| 0 <= i < r2.len() implies no_escape(#[trigger] r2[i]) by {
                    if i < rest.len() {
                        assert(r2[i] == rest[i]);
                    }
                }
            }
        } else {
            let r2 = rest.update(rest.len() - 1, rest.last().push(s.last()));
            assert(r2.drop_last() =~= rest.drop_last());
            assert(r2.last() == rest.last().push(s.last()));
            assert(join_lines(rest) == terminated(rest.drop_last()) + rest.last());
            assert(s =~= p.push(s.last()));
            assert(join_lines(r2) =~= terminated(rest.drop_last()) + rest.last().push(s.last()));
            assert(join_lines(r2) =~= s);
            if no_escape(s) {
                assert forall|i: int| 0 <= i < r2.len() implies no_escape(#[trigger] r2[i]) by {
                    if i < rest.len() - 1 {
                        assert(r2[i] == rest[i]);
                    } else {
                        assert(no_escape(rest[rest.len() - 1]));
                        assert forall|j: int| 0 <= j < r2[i].len() implies r2[i][j] != '\x1B' by {
                            if j < rest.last().len() {
                                assert(r2[i][j] == rest.last()[j]);
                            } else {
                                assert(r2[i][j] == s[s.len() - 1]);
                            }
                        }
                    }
                }
            }
        }
    }
}

/// Taking the styles out of text painted a line at a time gives the text
/// back: when each line of `s` (which holds no escape) is painted, the
/// escape sequences removed leave `s`.
pub proof fn lemma_unstyled_lines(out: Seq<char>, s: Seq<char>, colours: Seq<Rgb>)
    requires
        no_escape(s),
        colours.len() > 0,
        painted_lines(out, split_lines(s), colours),
    ensures
        strip_styles(out) == s,
{
    let lines = split_lines(s);
    lemma_split_lines(s);
    let outs = choose|outs: Seq<Seq<char>>|
        #![trigger join_lines(outs)]
        {
            &&& outs.len() == lines.len()
            &&& forall|i: int|
                0 <= i < lines.len() ==> painted(#[trigger] outs[i], lines[i], colours[i % (colours.len() as int)])
            &&& out == join_lines(outs)
        };
    let k = outs.len() - 1;
    lemma_strip_terminated(outs.drop_last(), lines, colours, outs.last());
    assert(lines.subrange(0, k) =~= lines.drop_last());
    assert(painted(outs[k], lines[k], colours[k % (colours.len() as int)]));
    lemma_strip_line(outs.last(), lines.last(), colours[k % (colours.len() as int)], Seq::empty());
    assert(outs.last() + Seq::<char>::empty() =~= outs.last());
    assert(strip_styles(Seq::<char>::empty()) == Seq::<char>::empty());
    assert(lines.last() + Seq::<char>::empty() =~= lines.last());
}

/// The decimal digits of a colour part read back as the part, with no
/// leading zero but for zero itself.
pub proof fn lemma_decimal_reads_back(n: u8)
    ensures
        crate::assembler::report::radix_value(decimal(n), 10) == n,
        forall|i: int| 0 <= i < decimal(n).len() ==> '0' <= #[trigger] decimal(n)[i] <= '9',
        decimal(n)[0] == '0' ==> n == 0,
{
    let v = n as int;
    let ds = decimal(n);
    assert forall|d: int| 0 <= d < 10 implies crate::assembler::report::digit_value(#[trigger] digit(d)) == d by {}
    if v < 10 {
        assert(ds.drop_last() =~= Seq::<char>::empty());
        assert(crate::assembler::report::radix_value(ds, 10) == crate::assembler::report::radix_value(
            Seq::<char>::empty(),
            10,
        ) * 10 + crate::assembler::report::digit_value(ds.last()));
    } else if v < 100 {
        assert(v / 10 < 10 && v % 10 < 10 && v / 10 >= 1) by (nonlinear_arith)
            requires
                10 <= v < 100,
        ;
        assert((v / 10) * 10 + v % 10 == v) by (nonlinear_arith);
        assert(ds.drop_last() =~= seq![digit(v / 10)]);
        assert(seq![digit(v / 10)].drop_last() =~= Seq::<char>::empty());
        let a = seq![digit(v / 10)];
        assert(crate::assembler::report::radix_value(a, 10) == crate::assembler::report::radix_value(
            Seq::<char>::empty(),
            10,
        ) * 10 + crate::assembler::report::digit_value(a.last()));
        assert(crate::assembler::report::radix_value(ds, 10) == crate::assembler::report::radix_value(a, 10) * 10
            + crate::assembler::report::digit_value(ds.last()));
    } else {
        assert(v / 100 < 10 && (v / 10) % 10 < 10 && v % 10 < 10 && v / 100 >= 1) by (nonlinear_arith)
            requires
                100 <= v < 256,
        ;
        assert(((v / 100) * 10 + (v / 10) % 10) * 10 + v % 10 == v) by (nonlinear_arith)
            requires
                0 <= v,
        ;
        assert(ds.drop_last() =~= seq![digit(v / 100), digit((v / 10) % 10)]);
        assert(seq![digit(v / 100), digit((v / 10) % 10)].drop_last() =~= seq![digit(v / 100)]);
        assert(seq![digit(v / 100)].drop_last() =~= Seq::<char>::empty());
        let a = seq![digit(v / 100)];
        let b = seq![digit(v / 100), digit((v / 10) % 10)];
        assert(crate::assembler::report::radix_value(a, 10) == crate::assembler::report::radix_value(
            Seq::<char>::empty(),
            10,
        ) * 10 + crate::assembler::report::digit_value(a.last()));
        assert(crate::assembler::report::radix_value(b, 10) == crate::assembler::report::radix_value(a, 10) * 10
            + crate::assembler::report::digit_value(b.last()));
        assert(crate::assembler::report::radix_value(ds, 10) == crate::assembler::report::radix_value(b, 10) * 10
            + crate::assembler::report::digit_value(ds.last()));
    }
}

} // verus!
