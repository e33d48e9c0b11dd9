//! Rendering of one frame as text.
use crate::frame::{Frame, Symbol, SymbolView};
use crate::path::{clean_path, shortened};
use crate::text::{decimal, digits, padded, push_digits, push_padded_decimal, same_text};
use vstd::prelude::*;

verus! {

/// Stands for a name, or a location, that is not known.
pub const UNKNOWN: &'static str = "<unknown>";

/// The width in which a frame's index is right-aligned.
pub const INDEX_WIDTH: usize = 4;

/// Ends the frame's index.
pub const INDEX_END: &'static str = ":";

/// Put before the frame's first name.
pub const FIRST_NAME_SEP: &'static str = " ";

/// Starts the line of a further name in the same frame.
pub const NAME_SEP: &'static str = "\n      ";

/// Starts a location line.
pub const LOCATION_SEP: &'static str = "\n          at ";

/// Parts a file from its line number.
pub const LINE_SEP: &'static str = ":";

/// Put before an instruction address.
pub const ADDRESS_PREFIX: &'static str = "address 0x";

/// Ends a frame.
pub const FRAME_END: &'static str = "\n";

/// The name shown for a symbol.
pub open spec fn name_text(s: SymbolView) -> Seq<char> {
    match s.name {
        Some(n) => n,
        None => UNKNOWN@,
    }
}

/// The location shown for a symbol: file and line, else file, else
/// address, else unknown.
pub open spec fn location_text(s: SymbolView) -> Seq<char> {
    match s.filename {
        Some(f) => match s.lineno {
            Some(l) => shortened(f) + LINE_SEP@ + decimal(l as nat),
            None => shortened(f),
        },
        None => match s.addr {
            Some(a) => ADDRESS_PREFIX@ + digits(a as nat, 16),
            None => UNKNOWN@,
        },
    }
}

/// The name part shown for the `j`-th symbol of a frame: after the index
/// for the first symbol, on a line of its own where it differs from the
/// previous symbol's name, and nothing where it repeats it.
pub open spec fn name_part(syms: Seq<SymbolView>, j: int) -> Seq<char> {
    if j == 0 {
        FIRST_NAME_SEP@ + name_text(syms[0])
    } else if name_text(syms[j - 1]) == name_text(syms[j]) {
        Seq::empty()
    } else {
        NAME_SEP@ + name_text(syms[j])
    }
}

/// The text of the `j`-th symbol of a frame: its name part and its location line.
pub open spec fn symbol_text(syms: Seq<SymbolView>, j: int) -> Seq<char> {
    name_part(syms, j) + LOCATION_SEP@ + location_text(syms[j])
}

/// The text of the first `n` symbols of a frame.
pub open spec fn symbols_text(syms: Seq<SymbolView>, n: int) -> Seq<char>
    decreases n,
{
    if n <= 0 {
        Seq::empty()
    } else {
        symbols_text(syms, n - 1) + symbol_text(syms, n - 1)
    }
}

/// The text of a frame shown at `index`.
pub open spec fn frame_text(index: nat, syms: Seq<SymbolView>) -> Seq<char> {
    padded(decimal(index), INDEX_WIDTH as nat) + INDEX_END@ + symbols_text(syms, syms.len() as int)
        + FRAME_END@
}

/// The name shown for a symbol.
fn symbol_name(s: &Symbol) -> (r: &str)
    ensures
        r@ == name_text(s@),
{
    match &s.name {
        Some(n) => n.as_str(),
        None => UNKNOWN,
    }
}

/// Appends the location shown for a symbol.
fn push_location(out: &mut String, s: &Symbol)
    ensures
        final(out)@ == old(out)@ + location_text(s@),
{
    match &s.filename {
        Some(f) => {
            let p = clean_path(f.as_str());
            out.append(p.as_str());
            match s.lineno {
                Some(l) => {
                    out.append(LINE_SEP);
                    push_digits(out, l as usize, 10);
                },
                None => {},
            }
        },
        None => match s.addr {
            Some(a) => {
                out.append(ADDRESS_PREFIX);
                push_digits(out, a, 16);
            },
            None => out.append(UNKNOWN),
        },
    }
    assert(out@ =~= old(out)@ + location_text(s@));
}

/// Appends the text of `frame` shown at `index`: the index, each distinct
/// run of names, and a location line for every symbol. The frame's names are
/// taken as already readable.
pub fn format_frame_into(out: &mut String, index: usize, frame: &Frame)
    ensures
        final(out)@ == old(out)@ + frame_text(index as nat, frame@),
{
    push_padded_decimal(out, index, INDEX_WIDTH);
    out.append(INDEX_END);
    let ghost head = out@;
    let n = frame.symbols.len();
    let mut j: usize = 0;
    while j < n
        invariant
            n == frame@.len(),
            n == frame.symbols@.len(),
            j <= n,
            out@ == head + symbols_text(frame@, j as int),
        decreases n - j,
    {
        let ghost before = out@;
        let sym = &frame.symbols[j];
        let name = symbol_name(sym);
        assert(frame@[j as int] == sym@);
        if j == 0 {
            out.append(FIRST_NAME_SEP);
            out.append(name);
        } else {
            let prev = symbol_name(&frame.symbols[j - 1]);
            assert(frame@[j - 1] == frame.symbols@[j - 1]@);
            if !same_text(prev, name) {
                out.append(NAME_SEP);
                out.append(name);
            }
        }
        assert(out@ =~= before + name_part(frame@, j as int));
        out.append(LOCATION_SEP);
        push_location(out, sym);
        assert(out@ =~= head + symbols_text(frame@, j + 1));
        j += 1;
    }
    out.append(FRAME_END);
    assert(out@ =~= old(out)@ + frame_text(index as nat, frame@));
}

/// Two adjacent symbols with the same name show that name once, followed
/// by the two location lines.
pub proof fn lemma_repeated_name_shown_once(index: nat, a: SymbolView, b: SymbolView)
    requires
        name_text(a) == name_text(b),
    ensures
        frame_text(index, seq![a, b]) == padded(decimal(index), INDEX_WIDTH as nat) + INDEX_END@
            + FIRST_NAME_SEP@ + name_text(a) + LOCATION_SEP@ + location_text(a) + LOCATION_SEP@
            + location_text(b) + FRAME_END@,
{
    let syms = seq![a, b];
    assert(syms[0] == a && syms[1] == b);
    assert(symbols_text(syms, 0) == Seq::<char>::empty());
    assert(symbols_text(syms, 1) =~= symbol_text(syms, 0));
    assert(name_part(syms, 1) =~= Seq::<char>::empty());
    assert(frame_text(index, syms) =~= padded(decimal(index), INDEX_WIDTH as nat) + INDEX_END@
        + FIRST_NAME_SEP@ + name_text(a) + LOCATION_SEP@ + location_text(a) + LOCATION_SEP@
        + location_text(b) + FRAME_END@);
}

/// A symbol with a file and a line is located by them, whatever its
/// address; one with neither file nor address is located as unknown.
pub proof fn lemma_location_priority(s: SymbolView)
    ensures
        s.filename matches Some(f) ==> s.lineno matches Some(l) ==> location_text(s) == shortened(
            f,
        ) + LINE_SEP@ + decimal(l as nat),
        s.filename is None && s.addr is None ==> location_text(s) == UNKNOWN@,
{
}

} // verus!
