//! Frames and symbols of a resolved trace, and their readable forms.
use vstd::prelude::*;

verus! {

/// One resolved identity at a frame, as plain values.
pub struct Symbol {
    /// The symbol's name, as the linker knows it (possibly mangled).
    pub name: Option<String>,
    /// The source file.
    pub filename: Option<String>,
    /// The line in the source file.
    pub lineno: Option<u32>,
    /// The instruction address.
    pub addr: Option<usize>,
}

/// One position in the call stack: the symbols that its address resolved
/// to, in resolution order (several where code was inlined).
pub struct Frame {
    pub symbols: Vec<Symbol>,
}

/// What a symbol holds, as mathematical values.
pub ghost struct SymbolView {
    pub name: Option<Seq<char>>,
    pub filename: Option<Seq<char>>,
    pub lineno: Option<u32>,
    pub addr: Option<usize>,
}

/// The characters of an optional text.
pub open spec fn text_of(s: Option<String>) -> Option<Seq<char>> {
    match s {
        Some(t) => Some(t@),
        None => None,
    }
}

impl View for Symbol {
    type V = SymbolView;

    open spec fn view(&self) -> SymbolView {
        SymbolView {
            name: text_of(self.name),
            filename: text_of(self.filename),
            lineno: self.lineno,
            addr: self.addr,
        }
    }
}

impl View for Frame {
    type V = Seq<SymbolView>;

    open spec fn view(&self) -> Seq<SymbolView> {
        self.symbols@.map_values(|s: Symbol| s@)
    }
}

/// The frames of a trace, as mathematical values.
pub open spec fn trace_view(frames: Seq<Frame>) -> Seq<Seq<SymbolView>> {
    frames.map_values(|f: Frame| f@)
}

/// The readable form that the demangler gives a symbol name.
pub uninterp spec fn demangled(name: Seq<char>) -> Seq<char>;

/// Relies on `rustc_demangle::demangle`, printed through its `Display` impl:
/// the readable form of a name, which depends on the name alone.
#[verifier::external_body]
fn demangle_name(name: &str) -> (r: String)
    ensures
        r@ == demangled(name@),
{
    rustc_demangle::demangle(name).to_string()
}

/// A symbol with its name in readable form.
pub open spec fn readable(s: SymbolView) -> SymbolView {
    SymbolView {
        name: match s.name {
            Some(n) => Some(demangled(n)),
            None => None,
        },
        ..s
    }
}

/// A frame with every name in readable form.
pub open spec fn readable_frame(f: Seq<SymbolView>) -> Seq<SymbolView> {
    f.map_values(|s: SymbolView| readable(s))
}

/// A trace with every name in readable form.
pub open spec fn readable_trace(t: Seq<Seq<SymbolView>>) -> Seq<Seq<SymbolView>> {
    t.map_values(|f: Seq<SymbolView>| readable_frame(f))
}

fn copy_text(s: &Option<String>) -> (r: Option<String>)
    ensures
        text_of(r) == text_of(*s),
{
    match s {
        Some(t) => Some(t.clone()),
        None => None,
    }
}

/// The symbol with its name demangled; the rest is copied.
pub fn demangle_symbol(sym: &Symbol) -> (r: Symbol)
    ensures
        r@ == readable(sym@),
{
    let name = match &sym.name {
        Some(n) => Some(demangle_name(n.as_str())),
        None => None,
    };
    Symbol { name, filename: copy_text(&sym.filename), lineno: sym.lineno, addr: sym.addr }
}

/// The frame with every symbol name demangled.
pub fn demangle_frame(frame: &Frame) -> (r: Frame)
    ensures
        r@ == readable_frame(frame@),
{
    let mut symbols: Vec<Symbol> = Vec::new();
    let mut i: usize = 0;
    while i < frame.symbols.len()
        invariant
            i <= frame.symbols@.len(),
            symbols@.len() == i,
            forall|j: int| 0 <= j < i ==> (#[trigger] symbols@[j])@ == readable(frame.symbols@[j]@),
        decreases frame.symbols@.len() - i,
    {
        symbols.push(demangle_symbol(&frame.symbols[i]));
        i += 1;
    }
    let r = Frame { symbols };
    proof {
        assert(r@ =~= readable_frame(frame@));
    }
    r
}

/// The trace with every symbol name demangled.
pub fn demangle_trace(frames: &Vec<Frame>) -> (r: Vec<Frame>)
    ensures
        trace_view(r@) == readable_trace(trace_view(frames@)),
{
    let mut out: Vec<Frame> = Vec::new();
    let mut i: usize = 0;
    while i < frames.len()
        invariant
            i <= frames@.len(),
            out@.len() == i,
            forall|j: int| 0 <= j < i ==> (#[trigger] out@[j])@ == readable_frame(frames@[j]@),
        decreases frames@.len() - i,
    {
        out.push(demangle_frame(&frames[i]));
        i += 1;
    }
    proof {
        assert(trace_view(out@) =~= readable_trace(trace_view(frames@)));
    }
    out
}

} // verus!
