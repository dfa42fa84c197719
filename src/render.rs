//! Terminal layout of a listing: one detailed line per entry, or a grid of
//! names wrapped to the terminal width.

use vstd::prelude::*;
use vstd::utf8::encode_utf8;
use vstd::string::StringExecFns;
use crossterm::style::{Color, Stylize};
use crate::entry::{class_of, name_class, FileInfo, NameClass};
use crate::listing::ListingConfig;
use crate::size::{format_size, size_text};
use crate::text::{pad_left, push_char, push_padded_left};
use crate::time::{format_time, time_text};

verus! {

/// The type column of an entry: `d` for a directory, `-` otherwise.
pub open spec fn type_char(e: FileInfo) -> char {
    if e.is_dir {
        'd'
    } else {
        '-'
    }
}

/// One line of the detailed layout: type, size right-aligned in eight
/// columns, time and the (styled) name.
pub open spec fn detail_line(e: FileInfo, styled: Seq<char>, human: bool) -> Seq<char> {
    seq![type_char(e), ' '] + pad_left(size_text(e.size as nat, human), 8) + seq![' '] + time_text(
        e.modified,
    ) + seq![' '] + styled + seq!['\n']
}

/// The detailed layout of the first `k` entries.
pub open spec fn detail_text(entries: Seq<FileInfo>, styled: Seq<String>, human: bool, k: int) -> Seq<char>
    decreases k,
{
    if k <= 0 {
        Seq::empty()
    } else {
        detail_text(entries, styled, human, k - 1) + detail_line(entries[k - 1], styled[k - 1]@, human)
    }
}

/// The number of bytes of the UTF-8 encoding of `s`, as `str::len` gives it.
pub open spec fn byte_len(s: Seq<char>) -> nat {
    (encode_utf8(s).len() as usize) as nat
}

/// The columns an entry takes in the grid before its separating spaces: the
/// bytes of its name, and one more for the `/` after a directory.
pub open spec fn display_width(e: FileInfo) -> nat {
    byte_len(e.name@) + if e.is_dir {
        1nat
    } else {
        0nat
    }
}

/// Whether the grid starts a new line before the entry at place `k`, when
/// `used` columns of the current line are taken: it would not fit, and it is
/// not the first entry.
pub open spec fn wraps_before(used: int, e: FileInfo, width: int, k: int) -> bool {
    used + display_width(e) + 2 > width && k > 0
}

/// The grid text of the first `k` entries, with the columns taken on its
/// last line.
pub open spec fn grid_upto(entries: Seq<FileInfo>, styled: Seq<String>, width: int, k: int) -> (Seq<char>, int)
    decreases k,
{
    if k <= 0 {
        (Seq::empty(), 0)
    } else {
        let prev = grid_upto(entries, styled, width, k - 1);
        let e = entries[k - 1];
        let w = display_width(e) + 2;
        let cell = styled[k - 1]@ + seq![' ', ' '];
        if wraps_before(prev.1, e, width, k - 1) {
            (prev.0.push('\n') + cell, w as int)
        } else {
            (prev.0 + cell, prev.1 + w)
        }
    }
}

/// The whole grid: every entry, and a final line break when there is any.
pub open spec fn grid_text(entries: Seq<FileInfo>, styled: Seq<String>, width: int) -> Seq<char> {
    let t = grid_upto(entries, styled, width, entries.len() as int).0;
    if entries.len() > 0 {
        t.push('\n')
    } else {
        t
    }
}

/// The detailed layout: for each entry, its type, its size right-aligned in
/// eight columns, its time and `styled[i]` as its name, one line each.
pub fn layout_detail(entries: &Vec<FileInfo>, styled: &Vec<String>, human: bool) -> (r: String)
    requires
        styled.len() == entries.len(),
    ensures
        r@ == detail_text(entries@, styled@, human, entries.len() as int),
{
    let mut out = String::new();
    let mut i: usize = 0;
    while i < entries.len()
        invariant
            i <= entries.len(),
            styled.len() == entries.len(),
            out@ == detail_text(entries@, styled@, human, i as int),
        decreases entries.len() - i,
    {
        let e = &entries[i];
        let ghost start = out@;
        push_char(&mut out, if e.is_dir { 'd' } else { '-' });
        push_char(&mut out, ' ');
        let size = format_size(e.size, human);
        push_padded_left(&mut out, size.as_str(), 8);
        push_char(&mut out, ' ');
        let time = format_time(e.modified);
        out.append(time.as_str());
        push_char(&mut out, ' ');
        out.append(styled[i].as_str());
        push_char(&mut out, '\n');
        assert(out@ =~= start + detail_line(entries@[i as int], styled@[i as int]@, human));
        i = i + 1;
    }
    out
}

/// The grid layout: `styled[i]` for each entry followed by two spaces, left
/// to right; an entry takes its display width plus two columns, and a line
/// break comes before an entry that would pass `term_width`, but never before
/// the first entry.
pub fn layout_grid(entries: &Vec<FileInfo>, styled: &Vec<String>, term_width: usize) -> (r: String)
    requires
        styled.len() == entries.len(),
    ensures
        r@ == grid_text(entries@, styled@, term_width as int),
{
    let mut out = String::new();
    let mut used: u128 = 0;
    let mut i: usize = 0;
    while i < entries.len()
        invariant
            i <= entries.len(),
            styled.len() == entries.len(),
            out@ == grid_upto(entries@, styled@, term_width as int, i as int).0,
            used == grid_upto(entries@, styled@, term_width as int, i as int).1,
            used <= usize::MAX + 3,
            i == 0 ==> used == 0,
        decreases entries.len() - i,
    {
        let e = &entries[i];
        let w: u128 = e.name.as_str().len() as u128 + if e.is_dir { 1u128 } else { 0u128 } + 2;
        assert(w == display_width(entries@[i as int]) + 2);
        if used + w > term_width as u128 && i > 0 {
            push_char(&mut out, '\n');
            used = w;
        } else {
            used = used + w;
        }
        out.append(styled[i].as_str());
        push_char(&mut out, ' ');
        push_char(&mut out, ' ');
        i = i + 1;
    }
    if entries.len() > 0 {
        push_char(&mut out, '\n');
    }
    out
}

/// The grid never leaves a line without an entry: no line break comes before
/// the first entry, a break comes only after a line that already holds an
/// entry, and the entry placed last always stands on the current line, even
/// when it is wider than the terminal.
pub proof fn lemma_grid_lines_hold_entries(
    entries: Seq<FileInfo>,
    styled: Seq<String>,
    width: int,
    k: int,
)
    requires
        0 <= k <= entries.len(),
    ensures
        k < entries.len() && wraps_before(grid_upto(entries, styled, width, k).1, entries[k], width, k)
            ==> k > 0 && grid_upto(entries, styled, width, k).1 >= display_width(entries[k - 1]) + 2,
        k > 0 ==> grid_upto(entries, styled, width, k).1 >= display_width(entries[k - 1]) + 2,
        k == 0 ==> grid_upto(entries, styled, width, k).0.len() == 0,
        grid_upto(entries, styled, width, k).1 >= 0,
    decreases k,
{
    if k > 0 {
        lemma_grid_lines_hold_entries(entries, styled, width, k - 1);
    }
}

/// The terminal escape sequence `ESC [ params m`.
pub open spec fn sgr(params: Seq<char>) -> Seq<char> {
    seq!['\u{1b}', '['] + params + seq!['m']
}

/// The sequence that sets the foreground to 256-color `code`; with colors
/// off it carries no parameters.
pub open spec fn foreground(code: Seq<char>, colors_on: bool) -> Seq<char> {
    if colors_on {
        sgr(seq!['3', '8', ';', '5', ';'] + code)
    } else {
        sgr(Seq::empty())
    }
}

/// The sequence that resets the foreground color; with colors off it carries
/// no parameters.
pub open spec fn foreground_reset(colors_on: bool) -> Seq<char> {
    if colors_on {
        sgr(seq!['3', '9'])
    } else {
        sgr(Seq::empty())
    }
}

/// `text` in the style of its class: bold blue for a directory, yellow for a
/// source file, dark grey for a hidden name, unstyled otherwise.
pub open spec fn painted(text: Seq<char>, class: NameClass, colors_on: bool) -> Seq<char> {
    match class {
        NameClass::Directory => foreground(seq!['1', '2'], colors_on) + sgr(seq!['1']) + text + sgr(
            seq!['0'],
        ),
        NameClass::Source => foreground(seq!['1', '1'], colors_on) + text + foreground_reset(colors_on),
        NameClass::Hidden => foreground(seq!['8'], colors_on) + text + foreground_reset(colors_on),
        NameClass::Plain => text,
    }
}

/// Whether `s` is `label` styled as `class`: with colors on or off (as the
/// `NO_COLOR` environment variable decides), or, for a styled class, nothing
/// at all where the console takes no escape sequences.
pub open spec fn styled_as(s: Seq<char>, label: Seq<char>, class: NameClass) -> bool {
    s == painted(label, class, true) || s == painted(label, class, false) || (class
        != NameClass::Plain && s.len() == 0)
}

/// Relies on crossterm's `Stylize::with` and `Stylize::bold`, written out
/// through `Display`: the blue foreground (parameters left out where
/// `NO_COLOR` is set), bold, `text`, then a full reset; nothing on a Windows
/// console without escape-sequence support.
#[verifier::external_body]
fn paint_directory(text: &str) -> (r: String)
    ensures
        styled_as(r@, text@, NameClass::Directory),
{
    text.with(Color::Blue).bold().to_string()
}

/// Relies on crossterm's `Stylize::with`, written out through `Display`: the
/// yellow foreground, `text`, then a foreground reset (parameters left out
/// where `NO_COLOR` is set); nothing on a Windows console without
/// escape-sequence support.
#[verifier::external_body]
fn paint_source(text: &str) -> (r: String)
    ensures
        styled_as(r@, text@, NameClass::Source),
{
    text.with(Color::Yellow).to_string()
}

/// Relies on crossterm's `Stylize::with`, written out through `Display`: the
/// dark grey foreground, `text`, then a foreground reset (parameters left out
/// where `NO_COLOR` is set); nothing on a Windows console without
/// escape-sequence support.
#[verifier::external_body]
fn paint_hidden(text: &str) -> (r: String)
    ensures
        styled_as(r@, text@, NameClass::Hidden),
{
    text.with(Color::DarkGrey).to_string()
}

/// The visible label of an entry: its name, followed by `/` for a directory
/// in the grid.
pub open spec fn name_label(e: FileInfo, grid: bool) -> Seq<char> {
    if e.is_dir && grid {
        e.name@.push('/')
    } else {
        e.name@
    }
}

/// The name of an entry styled by its class: bold blue for a directory,
/// yellow for a source file, dark grey for a hidden name, none for the rest.
pub fn style_name(e: &FileInfo, grid: bool) -> (r: String)
    ensures
        styled_as(r@, name_label(*e, grid), class_of(*e)),
{
    match name_class(e) {
        NameClass::Directory => {
            if grid {
                let mut s = e.name.clone();
                push_char(&mut s, '/');
                assert(s@ == name_label(*e, grid));
                paint_directory(s.as_str())
            } else {
                paint_directory(e.name.as_str())
            }
        },
        NameClass::Source => paint_source(e.name.as_str()),
        NameClass::Hidden => paint_hidden(e.name.as_str()),
        NameClass::Plain => e.name.clone(),
    }
}

/// Whether `styled` holds, for each entry, its label styled as its class.
pub open spec fn styled_for(entries: Seq<FileInfo>, styled: Seq<String>, grid: bool) -> bool {
    &&& styled.len() == entries.len()
    &&& forall|i: int|
        0 <= i < entries.len() ==> styled_as(
            #[trigger] styled[i]@,
            name_label(entries[i], grid),
            class_of(entries[i]),
        )
}

/// The text of a listing as `config` asks for it: the grid for a terminal
/// `term_width` columns wide, or the detailed lines, with sizes scaled
/// unless `config.bytes` is set.
pub open spec fn listing_text(
    entries: Seq<FileInfo>,
    styled: Seq<String>,
    config: ListingConfig,
    term_width: int,
) -> Seq<char> {
    if config.short {
        grid_text(entries, styled, term_width)
    } else {
        detail_text(entries, styled, config.human && !config.bytes, entries.len() as int)
    }
}

/// Renders a listing: each name is styled by its class, then laid out as
/// `config` asks.
pub fn render_listing(entries: &Vec<FileInfo>, config: &ListingConfig, term_width: usize) -> (r: String)
    ensures
        exists|styled: Seq<String>|
            styled_for(entries@, styled, config.short) && r@ == listing_text(
                entries@,
                styled,
                *config,
                term_width as int,
            ),
{
    let mut styled: Vec<String> = Vec::new();
    let mut i: usize = 0;
    while i < entries.len()
        invariant
            i <= entries.len(),
            styled.len() == i,
            forall|k: int|
                0 <= k < i ==> styled_as(
                    #[trigger] styled@[k]@,
                    name_label(entries@[k], config.short),
                    class_of(entries@[k]),
                ),
        decreases entries.len() - i,
    {
        let s = style_name(&entries[i], config.short);
        styled.push(s);
        i = i + 1;
    }
    assert(styled_for(entries@, styled@, config.short));
    if config.short {
        layout_grid(entries, &styled, term_width)
    } else {
        layout_detail(entries, &styled, config.human && !config.bytes)
    }
}

/// The layouts read the styled names only through their text.
proof fn lemma_layout_reads_text(
    entries: Seq<FileInfo>,
    s1: Seq<String>,
    s2: Seq<String>,
    human: bool,
    width: int,
    k: int,
)
    requires
        0 <= k <= entries.len(),
        s1.len() == entries.len(),
        s2.len() == entries.len(),
        forall|i: int| 0 <= i < entries.len() ==> #[trigger] s1[i]@ == s2[i]@,
    ensures
        grid_upto(entries, s1, width, k) == grid_upto(entries, s2, width, k),
        detail_text(entries, s1, human, k) == detail_text(entries, s2, human, k),
    decreases k,
{
    if k > 0 {
        lemma_layout_reads_text(entries, s1, s2, human, width, k - 1);
        assert(s1[k - 1]@ == s2[k - 1]@);
    }
}

/// Rendering is repeatable: two renderings of the same entries with the same
/// configuration and terminal width give the same text whenever the styled
/// names read alike; plain names always do.
pub proof fn lemma_render_repeatable(
    entries: Seq<FileInfo>,
    s1: Seq<String>,
    s2: Seq<String>,
    config: ListingConfig,
    width: int,
)
    requires
        styled_for(entries, s1, config.short),
        styled_for(entries, s2, config.short),
        forall|i: int|
            0 <= i < entries.len() && class_of(#[trigger] entries[i]) != NameClass::Plain ==> s1[i]@
                == s2[i]@,
    ensures
        listing_text(entries, s1, config, width) == listing_text(entries, s2, config, width),
{
    assert forall|i: int| 0 <= i < entries.len() implies #[trigger] s1[i]@ == s2[i]@ by {
        assert(class_of(entries[i]) == NameClass::Plain || s1[i]@ == s2[i]@);
    }
    lemma_layout_reads_text(
        entries,
        s1,
        s2,
        config.human && !config.bytes,
        width,
        entries.len() as int,
    );
}

} // verus!
