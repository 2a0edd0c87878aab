//! The alphabet resolver: which symbols a generation may use.

use vstd::prelude::*;
use vstd::utf8::is_scalar;
use crate::codec::{
    encode_all, lemma_decoded_symbols_are_members, lemma_raw_bytes_are_members, raw_byte, whole,
    Encoding,
};
use crate::error::GenError;

verus! {

/// The symbols to start from when the request names none.
#[derive(Debug, Clone, Copy, PartialEq, Eq, Structural)]
pub enum Universe {
    /// The codes 32 to 126.
    AsciiPrintable,
    /// The codes 0 to 127.
    AsciiFull,
    /// Every Unicode scalar value: the codes 0 to 0x10FFFF but the surrogates.
    Unicode,
}

/// The symbols whose codes lie in `lo..hi`, in rising order of code.
pub open spec fn scalars(lo: int, hi: int) -> Seq<char>
    decreases hi - lo,
{
    if hi <= lo {
        Seq::empty()
    } else if 0 <= hi - 1 <= u32::MAX && is_scalar((hi - 1) as u32) {
        scalars(lo, hi - 1).push(((hi - 1) as u32) as char)
    } else {
        scalars(lo, hi - 1)
    }
}

impl Universe {
    /// The first code of the universe.
    pub open spec fn low(self) -> int {
        match self {
            Universe::AsciiPrintable => 32,
            Universe::AsciiFull => 0,
            Universe::Unicode => 0,
        }
    }

    /// The code after the last of the universe.
    pub open spec fn high(self) -> int {
        match self {
            Universe::AsciiPrintable => 127,
            Universe::AsciiFull => 128,
            Universe::Unicode => 0x110000,
        }
    }

    /// The symbols of the universe, in rising order of code.
    pub open spec fn symbols(self) -> Seq<char> {
        scalars(self.low(), self.high())
    }
}

/// What a request says of its alphabet.
#[derive(Debug, Clone)]
pub struct AlphabetSpec {
    pub universe: Universe,
    /// The symbols to use in place of the universe.
    pub charset: Option<String>,
    /// Symbols that must not be used.
    pub exclude: Option<String>,
    /// Symbols that must not be used, named by the byte that stands for them
    /// in raw-byte output.
    pub exclude_codes: Option<Vec<u8>>,
}

/// Whether `c` is barred by one of the two exclusions.
pub open spec fn excluded(c: char, chars: Seq<char>, codes: Seq<u8>) -> bool {
    chars.contains(c) || codes.contains(raw_byte(c))
}

/// The symbols of `source` that are not excluded, each once, in the order in
/// which they first occur.
pub open spec fn resolved(source: Seq<char>, chars: Seq<char>, codes: Seq<u8>) -> Seq<char>
    decreases source.len(),
{
    if source.len() == 0 {
        Seq::empty()
    } else {
        let before = resolved(source.drop_last(), chars, codes);
        let c = source.last();
        if excluded(c, chars, codes) || before.contains(c) {
            before
        } else {
            before.push(c)
        }
    }
}

impl AlphabetSpec {
    /// The symbols to choose from: the inclusion string, or else the universe.
    pub open spec fn source(self) -> Seq<char> {
        match self.charset {
            Some(s) => s@,
            None => self.universe.symbols(),
        }
    }

    pub open spec fn barred_chars(self) -> Seq<char> {
        match self.exclude {
            Some(s) => s@,
            None => Seq::empty(),
        }
    }

    pub open spec fn barred_codes(self) -> Seq<u8> {
        match self.exclude_codes {
            Some(v) => v@,
            None => Seq::empty(),
        }
    }

    /// The symbols that the request resolves to.
    pub open spec fn symbols(self) -> Seq<char> {
        resolved(self.source(), self.barred_chars(), self.barred_codes())
    }
}

/// A resolved alphabet: at least one symbol, none twice.
#[derive(Debug, Clone, PartialEq, Eq)]
pub struct Alphabet {
    pub symbols: Vec<char>,
}

impl View for Alphabet {
    type V = Seq<char>;

    open spec fn view(&self) -> Seq<char> {
        self.symbols@
    }
}

impl Alphabet {
    pub open spec fn wf(self) -> bool {
        self@.len() > 0 && self@.no_duplicates()
    }

    /// The number of symbols.
    pub fn len(&self) -> (n: usize)
        ensures
            n == self@.len(),
    {
        self.symbols.len()
    }

    /// The symbol at `index`.
    pub fn symbol(&self, index: usize) -> (c: char)
        requires
            index < self@.len(),
        ensures
            c == self@[index as int],
    {
        self.symbols[index]
    }

    /// Whether `c` is a symbol of the alphabet.
    pub fn contains(&self, c: char) -> (r: bool)
        ensures
            r == self@.contains(c),
    {
        has_char(&self.symbols, c)
    }
}

/// The symbols of a resolved sequence are those of the source that are not
/// excluded; none occurs twice.
pub proof fn lemma_resolved(source: Seq<char>, chars: Seq<char>, codes: Seq<u8>)
    ensures
        forall|c: char|
            #![trigger resolved(source, chars, codes).contains(c)]
            resolved(source, chars, codes).contains(c) <==> source.contains(c) && !excluded(
                c,
                chars,
                codes,
            ),
        resolved(source, chars, codes).no_duplicates(),
        resolved(source, chars, codes).len() <= source.len(),
    decreases source.len(),
{
    let r = resolved(source, chars, codes);
    if source.len() > 0 {
        let init = source.drop_last();
        let before = resolved(init, chars, codes);
        let last = source.last();
        lemma_resolved(init, chars, codes);
        assert forall|c: char| #![trigger r.contains(c)] r.contains(c) <==> source.contains(c)
            && !excluded(c, chars, codes) by {
            if r.contains(c) {
                let i = choose|i: int| 0 <= i < r.len() && r[i] == c;
                if i < before.len() {
                    assert(before[i] == c);
                    assert(before.contains(c));
                    let j = choose|j: int| 0 <= j < init.len() && init[j] == c;
                    assert(source[j] == c);
                } else {
                    assert(c == last);
                    assert(source[source.len() - 1] == c);
                }
            }
            if source.contains(c) && !excluded(c, chars, codes) {
                let j = choose|j: int| 0 <= j < source.len() && source[j] == c;
                if j < init.len() {
                    assert(init[j] == c);
                    assert(init.contains(c));
                    assert(before.contains(c));
                    let i = choose|i: int| 0 <= i < before.len() && before[i] == c;
                    assert(r[i] == c);
                } else {
                    if before.contains(c) {
                        let i = choose|i: int| 0 <= i < before.len() && before[i] == c;
                        assert(r[i] == c);
                    } else {
                        assert(r[r.len() - 1] == c);
                    }
                }
            }
        }
    }
}

/// No excluded symbol reaches the output: whatever symbols the output of a
/// Unicode encoding is read as, each is a symbol of the request's source
/// and none is excluded.
pub proof fn lemma_output_avoids_exclusions(
    enc: Encoding,
    spec: AlphabetSpec,
    bytes: Seq<u8>,
    syms: Seq<char>,
)
    requires
        enc == Encoding::Utf8 || enc == Encoding::Utf16LE || enc == Encoding::Utf32LE,
        whole(enc, spec.symbols(), bytes),
        bytes == encode_all(enc, syms),
    ensures
        forall|i: int|
            0 <= i < syms.len() ==> spec.source().contains(#[trigger] syms[i]) && !excluded(
                syms[i],
                spec.barred_chars(),
                spec.barred_codes(),
            ),
{
    lemma_decoded_symbols_are_members(enc, spec.symbols(), bytes, syms);
    lemma_resolved(spec.source(), spec.barred_chars(), spec.barred_codes());
    assert forall|i: int| 0 <= i < syms.len() implies spec.source().contains(#[trigger] syms[i])
        && !excluded(syms[i], spec.barred_chars(), spec.barred_codes()) by {
        assert(spec.symbols().contains(syms[i]));
    }
}

/// No excluded code reaches raw-byte output: every byte is the raw byte of a
/// symbol of the request's source, and no byte is an excluded code.
pub proof fn lemma_raw_output_avoids_codes(spec: AlphabetSpec, bytes: Seq<u8>)
    requires
        whole(Encoding::RawByte, spec.symbols(), bytes),
    ensures
        forall|k: int|
            0 <= k < bytes.len() ==> !spec.barred_codes().contains(#[trigger] bytes[k]),
        forall|k: int|
            0 <= k < bytes.len() ==> exists|c: char|
                spec.source().contains(c) && !spec.barred_chars().contains(c) && #[trigger] bytes[k]
                    == #[trigger] raw_byte(c),
{
    let alphabet = spec.symbols();
    lemma_raw_bytes_are_members(alphabet, bytes);
    lemma_resolved(spec.source(), spec.barred_chars(), spec.barred_codes());
    assert forall|k: int| 0 <= k < bytes.len() implies !spec.barred_codes().contains(
        #[trigger] bytes[k],
    ) && exists|c: char|
        spec.source().contains(c) && !spec.barred_chars().contains(c) && #[trigger] bytes[k]
            == #[trigger] raw_byte(c) by {
        let i = choose|i: int|
            0 <= i < alphabet.len() && #[trigger] bytes[k] == raw_byte(#[trigger] alphabet[i]);
        assert(alphabet.contains(alphabet[i]));
    }
}

/// Every symbol of `scalars(lo, hi)` has its code in `lo..hi`.
proof fn lemma_scalars_range(lo: int, hi: int)
    ensures
        forall|i: int|
            0 <= i < scalars(lo, hi).len() ==> lo <= ((#[trigger] scalars(lo, hi)[i]) as u32) < hi,
    decreases hi - lo,
{
    if hi > lo {
        lemma_scalars_range(lo, hi - 1);
        let s = scalars(lo, hi);
        let t = scalars(lo, hi - 1);
        assert forall|i: int| 0 <= i < s.len() implies lo <= ((#[trigger] s[i]) as u32) < hi by {
            if i < t.len() {
                assert(s[i] == t[i]);
            } else {
                let u = (hi - 1) as u32;
                assert((u as char) as u32 == u);
                assert(s[i] == u as char);
            }
        }
    }
}

/// The characters of a string, in a vector.
pub fn chars_of(s: &str) -> (v: Vec<char>)
    ensures
        v@ == s@,
{
    let mut v: Vec<char> = Vec::new();
    for c in it: s.chars()
        invariant
            it.seq() == s@,
            v@ == it.seq().take(it.index() as int),
    {
        assert(it.seq().take(it.index() + 1) =~= it.seq().take(it.index() as int).push(c));
        v.push(c);
    }
    assert(s@.take(s@.len() as int) =~= s@);
    v
}

/// Whether `c` occurs in `v`.
pub fn has_char(v: &Vec<char>, c: char) -> (r: bool)
    ensures
        r == v@.contains(c),
{
    let mut i: usize = 0;
    while i < v.len()
        invariant
            i <= v.len(),
            forall|j: int| 0 <= j < i ==> v@[j] != c,
        decreases v.len() - i,
    {
        if v[i] == c {
            return true;
        }
        i += 1;
    }
    false
}

/// Whether `b` occurs in `v`.
pub fn has_byte(v: &Vec<u8>, b: u8) -> (r: bool)
    ensures
        r == v@.contains(b),
{
    let mut i: usize = 0;
    while i < v.len()
        invariant
            i <= v.len(),
            forall|j: int| 0 <= j < i ==> v@[j] != b,
        decreases v.len() - i,
    {
        if v[i] == b {
            return true;
        }
        i += 1;
    }
    false
}

/// `char::from_u32` of the standard library: the symbol with code `code`, or
/// `None` for a surrogate and for a code above 0x10FFFF.
#[verifier::external_body]
fn char_of_code(code: u32) -> (r: Option<char>)
    ensures
        r == (if is_scalar(code) {
            Some(code as char)
        } else {
            None::<char>
        }),
{
    char::from_u32(code)
}

fn is_excluded(c: char, chars: &Vec<char>, codes: &Vec<u8>) -> (r: bool)
    ensures
        r == excluded(c, chars@, codes@),
{
    has_char(chars, c) || has_byte(codes, (c as u32 % 256) as u8)
}

/// Resolves a universe: its codes are visited in rising order, so no symbol
/// comes twice and none has to be looked up among those already taken.
fn resolve_universe(universe: Universe, chars: &Vec<char>, codes: &Vec<u8>) -> (out: Vec<char>)
    ensures
        out@ == resolved(universe.symbols(), chars@, codes@),
{
    let (lo, hi): (u32, u32) = match universe {
        Universe::AsciiPrintable => (32, 127),
        Universe::AsciiFull => (0, 128),
        Universe::Unicode => (0, 0x110000),
    };
    let mut out: Vec<char> = Vec::new();
    let mut code: u32 = lo;
    while code < hi
        invariant
            lo == universe.low(),
            hi == universe.high(),
            lo <= code <= hi,
            out@ == resolved(scalars(lo as int, code as int), chars@, codes@),
        decreases hi - code,
    {
        let ghost seen = scalars(lo as int, code as int);
        match char_of_code(code) {
            Some(c) => {
                proof {
                    lemma_resolved(seen, chars@, codes@);
                    lemma_scalars_range(lo as int, code as int);
                    assert(!seen.contains(c));
                    assert(scalars(lo as int, code + 1) == seen.push(c));
                    assert(seen.push(c).drop_last() =~= seen);
                }
                if !is_excluded(c, chars, codes) {
                    out.push(c);
                }
            },
            None => {},
        }
        code += 1;
    }
    out
}

/// Resolves an inclusion string: a symbol that was taken before is skipped.
fn resolve_listed(source: &Vec<char>, chars: &Vec<char>, codes: &Vec<u8>) -> (out: Vec<char>)
    ensures
        out@ == resolved(source@, chars@, codes@),
{
    let mut out: Vec<char> = Vec::new();
    let mut i: usize = 0;
    while i < source.len()
        invariant
            i <= source.len(),
            out@ == resolved(source@.take(i as int), chars@, codes@),
        decreases source.len() - i,
    {
        let c: char = source[i];
        proof {
            assert(source@.take(i + 1).drop_last() =~= source@.take(i as int));
        }
        if !is_excluded(c, chars, codes) && !has_char(&out, c) {
            out.push(c);
        }
        i += 1;
    }
    assert(source@.take(source.len() as int) =~= source@);
    out
}

/// Resolves the alphabet of a request: the inclusion string if there is one,
/// else the universe, without the excluded symbols. An alphabet without
/// symbols is refused.
pub fn resolve(spec: &AlphabetSpec) -> (r: Result<Alphabet, GenError>)
    ensures
        match r {
            Ok(a) => a@ == spec.symbols() && a.wf(),
            Err(e) => e == GenError::EmptyAlphabet && spec.symbols().len() == 0,
        },
{
    let chars: Vec<char> = match &spec.exclude {
        Some(s) => chars_of(s.as_str()),
        None => Vec::new(),
    };
    let codes: Vec<u8> = match &spec.exclude_codes {
        Some(v) => v.clone(),
        None => Vec::new(),
    };
    let symbols: Vec<char> = match &spec.charset {
        Some(s) => {
            let source = chars_of(s.as_str());
            resolve_listed(&source, &chars, &codes)
        },
        None => resolve_universe(spec.universe, &chars, &codes),
    };
    proof {
        lemma_resolved(spec.source(), spec.barred_chars(), spec.barred_codes());
    }
    if symbols.len() == 0 {
        Err(GenError::EmptyAlphabet)
    } else {
        Ok(Alphabet { symbols })
    }
}

} // verus!
