//! The hexadecimal view of a file: rows of bytes beside their characters,
//! in colour where the terminal takes it, and the search for a byte string.

use crate::disassemble::{parsed_header, ElfHeader};
use crate::text::{
    hex, hex_at_least, push_char, push_hex, push_hex_at_least, push_repeated, repeated,
};
use colored::Colorize;
use vstd::arithmetic::div_mod::lemma_fundamental_div_mod_converse;
use vstd::prelude::*;
use vstd::slice::slice_subrange;
use vstd::string::*;

verus! {

/// The colour in which a piece of text is meant to be shown.
#[derive(Clone, Copy, Debug, PartialEq, Eq, Structural)]
pub enum Paint {
    Plain,
    Green,
    Red,
    Magenta,
}

/// A piece of text and the colour meant for it.
pub struct Span {
    pub paint: Paint,
    pub text: Seq<char>,
}

/// The number by which a terminal knows a colour.
pub open spec fn color_code(paint: Paint) -> Seq<char> {
    match paint {
        Paint::Plain => Seq::empty(),
        Paint::Green => "32"@,
        Paint::Red => "31"@,
        Paint::Magenta => "35"@,
    }
}

/// `text` between the escape sequence that switches a colour on and the one
/// that resets it.
pub open spec fn in_color(paint: Paint, text: Seq<char>) -> Seq<char> {
    "\x1B["@ + color_code(paint) + "m"@ + text + "\x1B[0m"@
}

/// No character of `text` is the escape character.
pub open spec fn free_of_escapes(text: Seq<char>) -> bool {
    forall|i: int| 0 <= i < text.len() ==> text[i] != '\x1B'
}

/// What is written for a span: its text, in its colour where `colored` is
/// set and the span has one.
pub open spec fn span_text(span: Span, colored: bool) -> Seq<char> {
    if colored && span.paint != Paint::Plain {
        in_color(span.paint, span.text)
    } else {
        span.text
    }
}

/// What is written for a row of spans, of which `colored` says one by one
/// whether the colour was applied.
pub open spec fn painted(spans: Seq<Span>, colored: Seq<bool>) -> Seq<char>
    decreases spans.len(),
{
    if spans.len() == 0 {
        Seq::empty()
    } else {
        painted(spans.drop_last(), colored.drop_last()) + span_text(spans.last(), colored.last())
    }
}

/// `text` shows `spans`: it is what is written for them, each with or
/// without its colour. Whether colours are applied is the terminal's
/// matter and is not decided here.
pub open spec fn shows(text: Seq<char>, spans: Seq<Span>) -> bool {
    exists|colored: Seq<bool>|
        colored.len() == spans.len() && text == #[trigger] painted(spans, colored)
}

/// `after` is `before` and, behind it, a text that shows `spans`.
pub open spec fn appends(before: Seq<char>, after: Seq<char>, spans: Seq<Span>) -> bool {
    exists|text: Seq<char>| #[trigger] shows(text, spans) && after == before + text
}

/// The text of all spans, without any colour.
pub open spec fn plain_text(spans: Seq<Span>) -> Seq<char>
    decreases spans.len(),
{
    if spans.len() == 0 {
        Seq::empty()
    } else {
        plain_text(spans.drop_last()) + spans.last().text
    }
}

/// No span has a colour.
pub open spec fn all_plain(spans: Seq<Span>) -> bool {
    forall|i: int| 0 <= i < spans.len() ==> (#[trigger] spans[i]).paint == Paint::Plain
}

/// Spans without a colour are written as their text, whatever the terminal.
pub proof fn lemma_plain_spans(spans: Seq<Span>, colored: Seq<bool>)
    requires
        all_plain(spans),
    ensures
        painted(spans, colored) == plain_text(spans),
    decreases spans.len(),
{
    if spans.len() > 0 {
        lemma_plain_spans(spans.drop_last(), colored.drop_last());
    }
}

/// A text that shows spans without a colour is their text.
pub proof fn lemma_shows_plain(text: Seq<char>, spans: Seq<Span>)
    requires
        all_plain(spans),
        shows(text, spans),
    ensures
        text == plain_text(spans),
{
    let colored = choose|colored: Seq<bool>|
        colored.len() == spans.len() && text == #[trigger] painted(spans, colored);
    lemma_plain_spans(spans, colored);
}

/// A text that shows some spans, followed by one that shows one more span,
/// shows them all.
proof fn lemma_shows_push(text: Seq<char>, spans: Seq<Span>, piece: Seq<char>, span: Span)
    requires
        shows(text, spans),
        piece == span.text || piece == span_text(span, true),
    ensures
        shows(text + piece, spans.push(span)),
{
    let colored = choose|colored: Seq<bool>|
        colored.len() == spans.len() && text == #[trigger] painted(spans, colored);
    let all = colored.push(piece != span.text);
    assert(spans.push(span).drop_last() =~= spans);
    assert(all.drop_last() =~= colored);
    assert(text + piece == painted(spans.push(span), all));
}

/// Texts that show two rows of spans show, one behind the other, the two
/// rows joined.
proof fn lemma_shows_concat(a: Seq<char>, first: Seq<Span>, b: Seq<char>, second: Seq<Span>)
    requires
        shows(a, first),
        shows(b, second),
    ensures
        shows(a + b, first + second),
{
    let ca = choose|colored: Seq<bool>|
        colored.len() == first.len() && a == #[trigger] painted(first, colored);
    let cb = choose|colored: Seq<bool>|
        colored.len() == second.len() && b == #[trigger] painted(second, colored);
    lemma_painted_concat(first, ca, second, cb);
}

/// What is written for two rows of spans joined is what is written for the
/// first and, behind it, what is written for the second.
proof fn lemma_painted_concat(
    first: Seq<Span>,
    ca: Seq<bool>,
    second: Seq<Span>,
    cb: Seq<bool>,
)
    requires
        ca.len() == first.len(),
        cb.len() == second.len(),
    ensures
        painted(first + second, ca + cb) == painted(first, ca) + painted(second, cb),
    decreases second.len(),
{
    if second.len() == 0 {
        assert(first + second =~= first);
        assert(ca + cb =~= ca);
        assert(painted(first, ca) + painted(second, cb) =~= painted(first, ca));
    } else {
        lemma_painted_concat(first, ca, second.drop_last(), cb.drop_last());
        assert((first + second).drop_last() =~= first + second.drop_last());
        assert((ca + cb).drop_last() =~= ca + cb.drop_last());
        assert((first + second).last() == second.last());
        assert((ca + cb).last() == cb.last());
        assert(painted(first + second, ca + cb) =~= painted(first, ca) + painted(second, cb));
    }
}

/// Nothing shows no spans.
proof fn lemma_shows_nothing()
    ensures
        shows(Seq::empty(), Seq::empty()),
{
    assert(Seq::<char>::empty() == painted(Seq::<Span>::empty(), Seq::<bool>::empty()));
}

/// `text` in green. Trusted: `Colorize::green` of the crate `colored` and
/// the `Display` of what it returns, which give a text free of escape
/// characters back either unchanged or between the sequences that switch
/// green on and reset it, as the process's colour settings decide. The
/// settings are taken not to change while the call runs.
#[verifier::external_body]
fn green(text: &str) -> (shown: String)
    ensures
        free_of_escapes(text@) ==> shown@ == text@ || shown@ == in_color(Paint::Green, text@),
{
    text.green().to_string()
}

/// `text` in red. Trusted: `Colorize::red` of the crate `colored` and the
/// `Display` of what it returns, which give a text free of escape
/// characters back either unchanged or between the sequences that switch
/// red on and reset it, as the process's colour settings decide. The
/// settings are taken not to change while the call runs.
#[verifier::external_body]
fn red(text: &str) -> (shown: String)
    ensures
        free_of_escapes(text@) ==> shown@ == text@ || shown@ == in_color(Paint::Red, text@),
{
    text.red().to_string()
}

/// `text` in magenta. Trusted: `Colorize::magenta` of the crate `colored`
/// and the `Display` of what it returns, which give a text free of escape
/// characters back either unchanged or between the sequences that switch
/// magenta on and reset it, as the process's colour settings decide. The
/// settings are taken not to change while the call runs.
#[verifier::external_body]
fn magenta(text: &str) -> (shown: String)
    ensures
        free_of_escapes(text@) ==> shown@ == text@ || shown@ == in_color(Paint::Magenta, text@),
{
    text.magenta().to_string()
}

/// Writes `text` in the colour `paint`.
pub fn paint_text(paint: Paint, text: &str) -> (shown: String)
    requires
        free_of_escapes(text@),
    ensures
        shown@ == text@ || shown@ == span_text((Span { paint, text: text@ }), true),
{
    match paint {
        Paint::Plain => String::from_str(text),
        Paint::Green => green(text),
        Paint::Red => red(text),
        Paint::Magenta => magenta(text),
    }
}

/// A byte that stands for a visible ASCII character.
pub open spec fn is_graphic(byte: u8) -> bool {
    0x21 <= byte <= 0x7E
}

/// What a session holds: the file's bytes and the layout of the view.
pub struct SessionView {
    pub data: Seq<u8>,
    pub column_count: nat,
    pub group_count: nat,
    pub use_color: bool,
}

impl SessionView {
    /// The colour of a byte: green for a visible character, red for any
    /// other byte but zero, none for zero or where colours are off.
    pub open spec fn byte_paint(self, byte: u8) -> Paint {
        if !self.use_color {
            Paint::Plain
        } else if is_graphic(byte) {
            Paint::Green
        } else if byte != 0 {
            Paint::Red
        } else {
            Paint::Plain
        }
    }

    /// The cell of the byte at place `index` of a row: its two hexadecimal
    /// digits, and a blank behind the last byte of each group.
    pub open spec fn cell_span(self, index: int, byte: u8) -> Span {
        Span {
            paint: self.byte_paint(byte),
            text: if (index + 1) % (self.group_count as int) == 0 {
                hex(byte as nat, 2) + " "@
            } else {
                hex(byte as nat, 2)
            },
        }
    }

    /// The character shown for a byte: the byte's own where it is visible
    /// and colours are on, a dot else.
    pub open spec fn glyph_span(self, byte: u8) -> Span {
        Span {
            paint: self.byte_paint(byte),
            text: if self.use_color && is_graphic(byte) {
                seq![byte as char]
            } else {
                "."@
            },
        }
    }

    /// The cells of the first `count` bytes of a row.
    pub open spec fn cells(self, bytes: Seq<u8>, count: nat) -> Seq<Span>
        decreases count,
    {
        if count == 0 {
            Seq::empty()
        } else {
            self.cells(bytes, (count - 1) as nat).push(self.cell_span(count - 1, bytes[count - 1]))
        }
    }

    /// The characters of the first `count` bytes of a row.
    pub open spec fn glyphs(self, bytes: Seq<u8>, count: nat) -> Seq<Span>
        decreases count,
    {
        if count == 0 {
            Seq::empty()
        } else {
            self.glyphs(bytes, (count - 1) as nat).push(self.glyph_span(bytes[count - 1]))
        }
    }

    /// The statement of where a row starts: the offset of its first byte in
    /// at least eight hexadecimal digits.
    pub open spec fn offset_span(self, row_index: int) -> Span {
        Span { paint: Paint::Plain, text: hex_at_least((row_index * self.column_count) as nat, 8) }
    }

    /// One row: the offset of its first byte, the cells of its bytes and
    /// their characters, with a blank between the three, and a line end.
    pub open spec fn line_spans(self, bytes: Seq<u8>, row_index: int) -> Seq<Span> {
        seq![self.offset_span(row_index), (Span { paint: Paint::Plain, text: " "@ })] + self.cells(
            bytes,
            bytes.len(),
        ) + seq![(Span { paint: Paint::Plain, text: " "@ })] + self.glyphs(bytes, bytes.len())
            + seq![(Span { paint: Paint::Plain, text: "\n"@ })]
    }

    /// The bytes of row `row_index`: as many as a row has columns, fewer at
    /// the end of the data.
    pub open spec fn row_bytes(self, row_index: int) -> Seq<u8> {
        let start = row_index * self.column_count;
        let end = if start + self.column_count <= self.data.len() {
            start + self.column_count
        } else {
            self.data.len() as int
        };
        self.data.subrange(start, end)
    }

    /// The `count` rows from row `first` on; a row that would start behind
    /// the end of the data is left out.
    pub open spec fn rows(self, first: int, count: nat) -> Seq<Span>
        decreases count,
    {
        if count == 0 {
            Seq::empty()
        } else {
            let row = first + count - 1;
            self.rows(first, (count - 1) as nat) + if row * self.column_count <= self.data.len() {
                self.line_spans(self.row_bytes(row), row)
            } else {
                Seq::empty()
            }
        }
    }

    /// The number of rows that the data fills, the last perhaps in part.
    pub open spec fn row_count(self) -> nat {
        ((self.data.len() + self.column_count - 1) / (self.column_count as int)) as nat
    }

    /// The whole view: every row, and an empty line.
    pub open spec fn dump_spans(self) -> Seq<Span> {
        self.rows(0, self.row_count()).push(Span { paint: Paint::Plain, text: "\n"@ })
    }

    /// The number of dashes in the line that separates two occurrences.
    pub open spec fn sep_width(self) -> nat {
        8 + self.column_count * self.group_count + self.column_count * 2 + 1
    }

    /// The line that separates two occurrences.
    pub open spec fn sep_span(self) -> Span {
        Span {
            paint: if self.use_color {
                Paint::Magenta
            } else {
                Paint::Plain
            },
            text: repeated('-', self.sep_width() as int),
        }
    }

    /// `pattern` stands in the data at offset `at`.
    pub open spec fn occurs_at(self, pattern: Seq<u8>, at: int) -> bool {
        0 <= at && at + pattern.len() <= self.data.len() && self.data.subrange(
            at,
            at + pattern.len(),
        ) == pattern
    }

    /// `pattern` stands somewhere in the data.
    pub open spec fn has_occurrence(self, pattern: Seq<u8>) -> bool {
        exists|at: int| #[trigger] self.occurs_at(pattern, at)
    }

    /// What is written for an occurrence of a pattern of `length` bytes at
    /// offset `at`: the separator on a line of its own, then the row in
    /// which the occurrence starts and one more row for each 16 bytes of
    /// the pattern.
    pub open spec fn occurrence_spans(self, length: nat, at: int) -> Seq<Span> {
        seq![self.sep_span(), (Span { paint: Paint::Plain, text: "\n"@ })] + self.rows(
            at / (self.column_count as int),
            length / 16 + 1,
        )
    }

    /// What is written for the occurrences of `pattern` that start before
    /// offset `upto`, in the order of their offsets.
    pub open spec fn occurrences(self, pattern: Seq<u8>, upto: nat) -> Seq<Span>
        decreases upto,
    {
        if upto == 0 {
            Seq::empty()
        } else {
            self.occurrences(pattern, (upto - 1) as nat) + if self.occurs_at(pattern, upto - 1) {
                self.occurrence_spans(pattern.len(), upto - 1)
            } else {
                Seq::empty()
            }
        }
    }

    /// The number of places at which a pattern of `length` bytes can stand
    /// in the data.
    pub open spec fn window_count(self, length: nat) -> nat {
        if length <= self.data.len() {
            (self.data.len() - length + 1) as nat
        } else {
            0
        }
    }

    /// The result of a search: every occurrence, and an empty line.
    pub open spec fn search_spans(self, pattern: Seq<u8>) -> Seq<Span> {
        self.occurrences(pattern, self.window_count(pattern.len())).push(
            Span { paint: Paint::Plain, text: "\n"@ },
        )
    }
}

/// With colours off, no cell and no character of a row has a colour.
proof fn lemma_cells_plain(view: SessionView, bytes: Seq<u8>, count: nat)
    requires
        !view.use_color,
    ensures
        all_plain(view.cells(bytes, count)),
        all_plain(view.glyphs(bytes, count)),
    decreases count,
{
    if count > 0 {
        lemma_cells_plain(view, bytes, (count - 1) as nat);
    }
}

/// With colours off, no span of a run of rows has a colour.
proof fn lemma_rows_plain(view: SessionView, first: int, count: nat)
    requires
        !view.use_color,
    ensures
        all_plain(view.rows(first, count)),
    decreases count,
{
    if count > 0 {
        lemma_rows_plain(view, first, (count - 1) as nat);
        let row = first + count - 1;
        let bytes = view.row_bytes(row);
        lemma_cells_plain(view, bytes, bytes.len());
    }
}

/// With colours off, no span of a search's result has a colour.
proof fn lemma_occurrences_plain(view: SessionView, pattern: Seq<u8>, upto: nat)
    requires
        !view.use_color,
    ensures
        all_plain(view.occurrences(pattern, upto)),
    decreases upto,
{
    if upto > 0 {
        lemma_occurrences_plain(view, pattern, (upto - 1) as nat);
        lemma_rows_plain(view, (upto - 1) / (view.column_count as int), pattern.len() / 16 + 1);
    }
}

/// A session with colours off writes the same text on every terminal: a
/// row of the bytes `bytes`, the whole view, the result of a search for
/// `bytes` and the separator are the plain text of their spans.
pub proof fn lemma_exact_without_color(
    view: SessionView,
    bytes: Seq<u8>,
    row_index: int,
    text: Seq<char>,
)
    requires
        !view.use_color,
    ensures
        shows(text, view.line_spans(bytes, row_index)) ==> text == plain_text(
            view.line_spans(bytes, row_index),
        ),
        shows(text, view.dump_spans()) ==> text == plain_text(view.dump_spans()),
        shows(text, view.search_spans(bytes)) ==> text == plain_text(view.search_spans(bytes)),
        shows(text, seq![view.sep_span()]) ==> text == view.sep_span().text,
{
    lemma_cells_plain(view, bytes, bytes.len());
    lemma_rows_plain(view, 0, view.row_count());
    lemma_occurrences_plain(view, bytes, view.window_count(bytes.len()));
    if shows(text, view.line_spans(bytes, row_index)) {
        lemma_shows_plain(text, view.line_spans(bytes, row_index));
    }
    if shows(text, view.dump_spans()) {
        lemma_shows_plain(text, view.dump_spans());
    }
    if shows(text, view.search_spans(bytes)) {
        lemma_shows_plain(text, view.search_spans(bytes));
    }
    if shows(text, seq![view.sep_span()]) {
        lemma_shows_plain(text, seq![view.sep_span()]);
        let one = seq![view.sep_span()];
        assert(one.drop_last().len() == 0);
        assert(plain_text(one.drop_last()) =~= Seq::<char>::empty());
        assert(plain_text(one) =~= view.sep_span().text);
    }
}

/// A file's bytes together with the layout in which they are shown.
pub struct Session {
    data: Vec<u8>,
    column_count: usize,
    group_count: usize,
    use_color: bool,
}

impl View for Session {
    type V = SessionView;

    closed spec fn view(&self) -> SessionView {
        SessionView {
            data: self.data@,
            column_count: self.column_count as nat,
            group_count: self.group_count as nat,
            use_color: self.use_color,
        }
    }
}

/// The digits of a byte hold no escape character.
proof fn lemma_hex_free_of_escapes(n: nat, width: nat)
    ensures
        free_of_escapes(hex(n, width)),
        hex(n, width).len() == width,
    decreases width,
{
    if width > 0 {
        lemma_hex_free_of_escapes(n / 16, (width - 1) as nat);
    }
}

impl Session {
    /// A session on the bytes of a file, shown `column_count` bytes to the
    /// row and in groups of `group_count` bytes.
    pub fn new(data: Vec<u8>, column_count: usize, group_count: usize, use_color: bool) -> (session:
        Session)
        ensures
            session@ == (SessionView {
                data: data@,
                column_count: column_count as nat,
                group_count: group_count as nat,
                use_color,
            }),
    {
        Session { data, column_count, group_count, use_color }
    }

    /// The bytes of the file.
    pub fn data(&self) -> (bytes: &[u8])
        ensures
            bytes@ == self@.data,
    {
        self.data.as_slice()
    }

    /// Parses the header of the file; a refusal is reported in
    /// `output_string`.
    pub fn elf_header(&self, output_string: &mut String) -> (header: Option<ElfHeader>)
        ensures
            match parsed_header(self@.data) {
                Ok(view) => header.is_some() && header.unwrap()@ == view && final(output_string)@
                    == old(output_string)@,
                Err(e) => header.is_none() && final(output_string)@ == old(output_string)@
                    + e.message_text() + "\n"@,
            },
    {
        ElfHeader::new(self.data.as_slice(), output_string)
    }

    /// The colour of a byte.
    pub fn byte_paint(&self, byte: u8) -> (paint: Paint)
        ensures
            paint == self@.byte_paint(byte),
    {
        if !self.use_color {
            Paint::Plain
        } else if 0x21 <= byte && byte <= 0x7E {
            Paint::Green
        } else if byte != 0 {
            Paint::Red
        } else {
            Paint::Plain
        }
    }

    /// The cell of the byte at place `index` of a row.
    pub fn format_byte(&self, index: usize, byte: &u8) -> (cell: String)
        requires
            self@.group_count > 0,
            index < usize::MAX,
        ensures
            shows(cell@, seq![self@.cell_span(index as int, *byte)]),
    {
        let mut text = String::new();
        push_hex(&mut text, *byte as u64, 2);
        if (index + 1) % self.group_count == 0 {
            text.append(" ");
        }
        proof {
            reveal_strlit(" ");
            lemma_hex_free_of_escapes(*byte as nat, 2);
            assert(text@ =~= self@.cell_span(index as int, *byte).text);
        }
        let cell = paint_text(self.byte_paint(*byte), text.as_str());
        proof {
            lemma_shows_nothing();
            lemma_shows_push(
                Seq::empty(),
                Seq::empty(),
                cell@,
                self@.cell_span(index as int, *byte),
            );
            assert(Seq::<char>::empty() + cell@ =~= cell@);
        }
        cell
    }

    /// The character shown for a byte.
    pub fn format_glyph(&self, byte: u8) -> (glyph: String)
        ensures
            shows(glyph@, seq![self@.glyph_span(byte)]),
    {
        let mut text = String::new();
        if self.use_color && 0x21 <= byte && byte <= 0x7E {
            push_char(&mut text, byte as char);
        } else {
            text.append(".");
        }
        proof {
            reveal_strlit(".");
            assert(text@ =~= self@.glyph_span(byte).text);
        }
        let glyph = paint_text(self.byte_paint(byte), text.as_str());
        proof {
            lemma_shows_nothing();
            lemma_shows_push(Seq::empty(), Seq::empty(), glyph@, self@.glyph_span(byte));
            assert(Seq::<char>::empty() + glyph@ =~= glyph@);
        }
        glyph
    }

    /// One row of the view, for the bytes `bytes` of row `row_index`.
    pub fn format_hex_line(&self, bytes: &[u8], row_index: usize) -> (line: String)
        requires
            bytes@.len() > 0 ==> self@.group_count > 0,
            row_index * self@.column_count <= usize::MAX,
        ensures
            shows(line@, self@.line_spans(bytes@, row_index as int)),
    {
        let offset = row_index * self.column_count;
        let mut line = String::new();
        push_hex_at_least(&mut line, offset as u64, 8);
        let ghost blank = Span { paint: Paint::Plain, text: " "@ };
        let ghost mut spans = seq![self@.offset_span(row_index as int)];
        proof {
            lemma_shows_nothing();
            lemma_shows_push(
                Seq::empty(),
                Seq::empty(),
                line@,
                self@.offset_span(row_index as int),
            );
            assert(Seq::<char>::empty() + line@ =~= line@);
            lemma_shows_push(line@, spans, " "@, blank);
            spans = spans.push(blank);
        }
        line.append(" ");
        let ghost head = spans;
        let mut i: usize = 0;
        while i < bytes.len()
            invariant
                i <= bytes@.len(),
                bytes@.len() > 0 ==> self@.group_count > 0,
                spans == head + self@.cells(bytes@, i as nat),
                shows(line@, spans),
            decreases bytes@.len() - i,
        {
            let cell = self.format_byte(i, &bytes[i]);
            proof {
                let span = self@.cell_span(i as int, bytes@[i as int]);
                lemma_shows_concat(line@, spans, cell@, seq![span]);
                assert(spans + seq![span] =~= head + self@.cells(bytes@, (i + 1) as nat));
                spans = spans + seq![span];
            }
            line.append(cell.as_str());
            i += 1;
        }
        proof {
            lemma_shows_push(line@, spans, " "@, blank);
            spans = spans.push(blank);
        }
        line.append(" ");
        let ghost middle = spans;
        let mut i: usize = 0;
        while i < bytes.len()
            invariant
                i <= bytes@.len(),
                spans == middle + self@.glyphs(bytes@, i as nat),
                shows(line@, spans),
            decreases bytes@.len() - i,
        {
            let glyph = self.format_glyph(bytes[i]);
            proof {
                let span = self@.glyph_span(bytes@[i as int]);
                lemma_shows_concat(line@, spans, glyph@, seq![span]);
                assert(spans + seq![span] =~= middle + self@.glyphs(bytes@, (i + 1) as nat));
                spans = spans + seq![span];
            }
            line.append(glyph.as_str());
            i += 1;
        }
        proof {
            let end = Span { paint: Paint::Plain, text: "\n"@ };
            lemma_shows_push(line@, spans, "\n"@, end);
            assert(spans.push(end) =~= self@.line_spans(bytes@, row_index as int));
        }
        line.append("\n");
        line
    }

    /// The line that separates two occurrences.
    pub fn get_sep(&self) -> (sep: String)
        requires
            self@.sep_width() <= usize::MAX,
        ensures
            shows(sep@, seq![self@.sep_span()]),
    {
        proof {
            assert(self@.column_count * self@.group_count >= 0) by (nonlinear_arith);
        }
        let count = 8 + self.column_count * self.group_count + self.column_count * 2 + 1;
        let mut sep = String::new();
        push_repeated(&mut sep, '-', count);
        proof {
            assert(sep@ =~= self@.sep_span().text);
        }
        let shown = if self.use_color {
            paint_text(Paint::Magenta, sep.as_str())
        } else {
            sep
        };
        proof {
            lemma_shows_nothing();
            lemma_shows_push(Seq::empty(), Seq::empty(), shown@, self@.sep_span());
            assert(Seq::<char>::empty() + shown@ =~= shown@);
        }
        shown
    }

    /// The `count` rows from row `first` on, as far as they start within
    /// the data.
    pub fn format_rows(&self, first: usize, count: usize) -> (rows: String)
        requires
            self@.column_count > 0,
            self@.data.len() > 0 ==> self@.group_count > 0,
            first * self@.column_count <= self@.data.len(),
        ensures
            shows(rows@, self@.rows(first as int, count as nat)),
    {
        let len = self.data.len();
        let mut rows = String::new();
        let mut c: usize = 0;
        let mut row: usize = first;
        let mut start: usize = first * self.column_count;
        let mut inside = true;
        proof {
            lemma_shows_nothing();
        }
        while c < count
            invariant
                c <= count,
                len == self@.data.len(),
                self@.column_count > 0,
                len > 0 ==> self@.group_count > 0,
                inside ==> row == first + c && start == row * self@.column_count && start <= len,
                !inside ==> (first + c) * self@.column_count > len,
                shows(rows@, self@.rows(first as int, c as nat)),
            decreases count - c,
        {
            let ghost cc = self@.column_count as int;
            proof {
                assert((first + c + 1) * cc == (first + c) * cc + cc) by (nonlinear_arith);
            }
            if inside {
                let end = if self.column_count <= len - start {
                    start + self.column_count
                } else {
                    len
                };
                let line = self.format_hex_line(
                    slice_subrange(self.data.as_slice(), start, end),
                    row,
                );
                proof {
                    assert(row <= row * cc) by (nonlinear_arith)
                        requires
                            cc >= 1,
                            row >= 0,
                    ;
                    lemma_shows_concat(
                        rows@,
                        self@.rows(first as int, c as nat),
                        line@,
                        self@.line_spans(self@.row_bytes(row as int), row as int),
                    );
                }
                rows.append(line.as_str());
                if self.column_count <= len - start {
                    start = start + self.column_count;
                    row = row + 1;
                } else {
                    inside = false;
                }
            } else {
                proof {
                    assert(self@.rows(first as int, c as nat) + Seq::<Span>::empty()
                        =~= self@.rows(first as int, c as nat));
                }
            }
            c += 1;
        }
        rows
    }

    /// Appends the whole view to `output_string`: one row for each
    /// `column_count` bytes of the data, and an empty line.
    pub fn dump(&self, output_string: &mut String)
        requires
            self@.column_count > 0,
            self@.data.len() > 0 ==> self@.group_count > 0,
        ensures
            appends(old(output_string)@, final(output_string)@, self@.dump_spans()),
    {
        let len = self.data.len();
        let mut contents = String::new();
        let mut row: usize = 0;
        let mut start: usize = 0;
        proof {
            lemma_shows_nothing();
        }
        while start < len
            invariant
                len == self@.data.len(),
                self@.column_count > 0,
                len > 0 ==> self@.group_count > 0,
                start <= len,
                start < len ==> start == row * self@.column_count,
                start == len ==> (row - 1) * self@.column_count < len <= row * self@.column_count,
                shows(contents@, self@.rows(0, row as nat)),
            decreases len - start,
        {
            let ghost cc = self@.column_count as int;
            proof {
                assert((row + 1) * cc == row * cc + cc) by (nonlinear_arith);
                assert((row + 1 - 1) * cc == row * cc) by (nonlinear_arith);
                assert(row <= row * cc) by (nonlinear_arith)
                    requires
                        cc >= 1,
                        row >= 0,
                ;
            }
            let end = if self.column_count <= len - start {
                start + self.column_count
            } else {
                len
            };
            let line = self.format_hex_line(slice_subrange(self.data.as_slice(), start, end), row);
            proof {
                lemma_shows_concat(
                    contents@,
                    self@.rows(0, row as nat),
                    line@,
                    self@.line_spans(self@.row_bytes(row as int), row as int),
                );
            }
            contents.append(line.as_str());
            start = end;
            row = row + 1;
        }
        proof {
            let cc = self@.column_count as int;
            assert((row - 1) * cc == row * cc - cc) by (nonlinear_arith);
            lemma_fundamental_div_mod_converse(
                len + cc - 1,
                cc,
                row as int,
                len + cc - 1 - row * cc,
            );
            assert(row == self@.row_count());
            let end = Span { paint: Paint::Plain, text: "\n"@ };
            lemma_shows_push(contents@, self@.rows(0, row as nat), "\n"@, end);
            assert(old(output_string)@ + contents@ + "\n"@ =~= old(output_string)@ + (contents@
                + "\n"@));
        }
        output_string.append(contents.as_str());
        output_string.append("\n");
    }

    /// Tells whether `bytes` stand in the data at offset `at`.
    pub fn occurs_at(&self, bytes: &[u8], at: usize) -> (found: bool)
        requires
            at + bytes@.len() <= self@.data.len(),
        ensures
            found == self@.occurs_at(bytes@, at as int),
    {
        let len = self.data.len();
        let mut k: usize = 0;
        while k < bytes.len()
            invariant
                k <= bytes@.len(),
                at + bytes@.len() <= self@.data.len() == len,
                forall|j: int| 0 <= j < k ==> self@.data[at + j] == bytes@[j],
            decreases bytes@.len() - k,
        {
            if self.data[at + k] != bytes[k] {
                proof {
                    assert(self@.data.subrange(at as int, at + bytes@.len())[k as int]
                        != bytes@[k as int]);
                }
                return false;
            }
            k += 1;
        }
        proof {
            assert(self@.data.subrange(at as int, at + bytes@.len()) =~= bytes@);
        }
        true
    }

    /// Tells whether `bytes` stand anywhere in the data.
    pub fn has_occurrence(&self, bytes: &[u8]) -> (found: bool)
        ensures
            found == self@.has_occurrence(bytes@),
    {
        let len = self.data.len();
        let m = bytes.len();
        if m > len {
            return false;
        }
        if m == 0 {
            proof {
                assert(self@.data.subrange(0, 0) =~= bytes@);
                assert(self@.occurs_at(bytes@, 0));
            }
            return true;
        }
        let mut i: usize = 0;
        while i <= len - m
            invariant
                m == bytes@.len(),
                len == self@.data.len(),
                0 < m <= len,
                i <= len - m + 1,
                forall|at: int| 0 <= at < i ==> !self@.occurs_at(bytes@, at),
            decreases len - m + 1 - i,
        {
            if self.occurs_at(bytes, i) {
                return true;
            }
            i += 1;
        }
        false
    }

    /// Appends to `output_string`, for each place at which `bytes` stand in
    /// the data, the separator and the rows that hold the occurrence, and
    /// an empty line behind them all.
    pub fn list_occurrences(&self, bytes: &[u8], output_string: &mut String)
        requires
            self@.sep_width() <= usize::MAX,
            bytes@.len() > 0,
            self@.has_occurrence(bytes@) ==> self@.column_count > 0 && self@.group_count > 0,
        ensures
            appends(old(output_string)@, final(output_string)@, self@.search_spans(bytes@)),
    {
        let sep = self.get_sep();
        let len = self.data.len();
        let m = bytes.len();
        let mut occurrences = String::new();
        let mut i: usize = 0;
        let windows: usize = if m <= len {
            len - m + 1
        } else {
            0
        };
        proof {
            lemma_shows_nothing();
        }
        while i < windows
            invariant
                i <= windows,
                windows == self@.window_count(bytes@.len()),
                len == self@.data.len(),
                m == bytes@.len(),
                self@.has_occurrence(bytes@) ==> self@.column_count > 0 && self@.group_count > 0,
                shows(sep@, seq![self@.sep_span()]),
                shows(occurrences@, self@.occurrences(bytes@, i as nat)),
            decreases windows - i,
        {
            let ghost before = self@.occurrences(bytes@, i as nat);
            if self.occurs_at(bytes, i) {
                let row_index = i / self.column_count;
                let count = m / 16 + 1;
                proof {
                    let cc = self@.column_count as int;
                    assert((i as int / cc) * cc <= i) by (nonlinear_arith)
                        requires
                            cc > 0,
                            i >= 0,
                    ;
                }
                let rows = self.format_rows(row_index, count);
                proof {
                    let end = Span { paint: Paint::Plain, text: "\n"@ };
                    lemma_shows_concat(occurrences@, before, sep@, seq![self@.sep_span()]);
                    lemma_shows_push(
                        occurrences@ + sep@,
                        before + seq![self@.sep_span()],
                        "\n"@,
                        end,
                    );
                    lemma_shows_concat(
                        occurrences@ + sep@ + "\n"@,
                        (before + seq![self@.sep_span()]).push(end),
                        rows@,
                        self@.rows(row_index as int, count as nat),
                    );
                    assert((before + seq![self@.sep_span()]).push(end) + self@.rows(
                        row_index as int,
                        count as nat,
                    ) =~= before + self@.occurrence_spans(m as nat, i as int));
                }
                occurrences.append(sep.as_str());
                occurrences.append("\n");
                occurrences.append(rows.as_str());
            } else {
                proof {
                    assert(before + Seq::<Span>::empty() =~= before);
                }
            }
            i += 1;
        }
        proof {
            let end = Span { paint: Paint::Plain, text: "\n"@ };
            lemma_shows_push(occurrences@, self@.occurrences(bytes@, windows as nat), "\n"@, end);
            assert(old(output_string)@ + occurrences@ + "\n"@ =~= old(output_string)@ + (
            occurrences@ + "\n"@));
        }
        output_string.append(occurrences.as_str());
        output_string.append("\n");
    }

    /// Searches for the bytes of the string `s` as `list_occurrences` does.
    pub fn list_occurrences_string(&self, s: &str, output_string: &mut String)
        requires
            self@.sep_width() <= usize::MAX,
            s.spec_bytes().len() > 0,
            self@.has_occurrence(s.spec_bytes()) ==> self@.column_count > 0 && self@.group_count
                > 0,
        ensures
            appends(
                old(output_string)@,
                final(output_string)@,
                self@.search_spans(s.spec_bytes()),
            ),
    {
        self.list_occurrences(s.as_bytes(), output_string);
    }
}

} // verus!
