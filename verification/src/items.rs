//! The items of a scalar stream: what one line holds.

use vstd::prelude::*;
use crate::args::UuidVersion;
use crate::buffer::append;
use crate::outside::{
    draw_i64, lowercase, random_letters, random_letters_between, uuid_max_text, uuid_nil_text,
    uuid_of, uuid_v4, uuid_v4_text,
};

verus! {

/// What the items of a scalar stream are.
#[derive(Debug, Clone, Copy, PartialEq, Eq, Structural)]
pub enum ScalarKind {
    /// Integers of the closed range `min..=max`, in decimal.
    Int { min: i64, max: i64 },
    /// UUIDs in hyphenated lower-case form.
    Uuid(UuidVersion),
    /// URLs with random labels of `length` letters (of 5 to 14 where no
    /// length is given), `segments` path segments if any are asked for, and a
    /// query if one is asked for.
    Url { length: Option<usize>, segments: Option<u8>, query: bool },
    /// Items that the caller renders and hands in.
    Supplied,
}

/// Shortest label that is drawn where no length is given.
pub const LABEL_MIN: usize = 5;

/// One more than the longest label that is drawn where no length is given.
pub const LABEL_END: usize = 15;

/// Length of a top-level label.
pub const TLD_LEN: usize = 3;

impl ScalarKind {
    /// Items of this kind can be drawn: the range is not empty, the labels
    /// are not longer than a string can be.
    pub open spec fn wf(self) -> bool {
        match self {
            ScalarKind::Int { min, max } => min <= max,
            ScalarKind::Uuid(_) => true,
            ScalarKind::Url { length, segments, query } => length matches Some(l) ==> l
                <= usize::MAX / 2,
            ScalarKind::Supplied => true,
        }
    }

    /// The library draws the items itself.
    pub open spec fn drawn(self) -> bool {
        self != ScalarKind::Supplied
    }

    pub fn is_drawn(&self) -> (r: bool)
        ensures
            r == self.drawn(),
    {
        !matches!(self, ScalarKind::Supplied)
    }
}

/// The decimal digits of a natural number, most significant first.
pub open spec fn digits(n: nat) -> Seq<u8>
    decreases n,
{
    if n < 10 {
        seq![(48 + n) as u8]
    } else {
        digits(n / 10).push((48 + n % 10) as u8)
    }
}

/// The decimal text of an integer: a minus sign for a negative one, then the
/// digits of its magnitude.
pub open spec fn decimal(v: int) -> Seq<u8> {
    if v < 0 {
        seq![45u8] + digits((-v) as nat)
    } else {
        digits(v as nat)
    }
}

fn push_digits(n: u64, out: &mut Vec<u8>)
    ensures
        final(out)@ == old(out)@ + digits(n as nat),
    decreases n,
{
    if n >= 10 {
        push_digits(n / 10, out);
    }
    out.push(48 + (n % 10) as u8);
    assert(final(out)@ =~= old(out)@ + digits(n as nat));
}

/// Appends the decimal text of `v`.
pub fn push_decimal(v: i64, out: &mut Vec<u8>)
    ensures
        final(out)@ == old(out)@ + decimal(v as int),
{
    if v < 0 {
        out.push(45);
        let magnitude: u64 = if v == i64::MIN {
            9223372036854775808
        } else {
            (-v) as u64
        };
        push_digits(magnitude, out);
        assert(final(out)@ =~= old(out)@ + decimal(v as int));
    } else {
        push_digits(v as u64, out);
    }
}

/// The parts of a URL.
pub struct UrlParts {
    pub domain: Seq<u8>,
    pub tld: Seq<u8>,
    pub path: Option<Seq<Seq<u8>>>,
    pub query: Option<Seq<u8>>,
}

/// `https://`
pub open spec fn scheme() -> Seq<u8> {
    seq![104u8, 116, 116, 112, 115, 58, 47, 47]
}

/// The segments of a path, with a slash between each two.
pub open spec fn joined(segments: Seq<Seq<u8>>) -> Seq<u8>
    decreases segments.len(),
{
    if segments.len() == 0 {
        Seq::empty()
    } else if segments.len() == 1 {
        segments[0]
    } else {
        joined(segments.drop_last()) + seq![47u8] + segments.last()
    }
}

/// What follows the host: nothing, `/` and the path, `/?` and the query, or
/// `/`, the path, `?` and the query.
pub open spec fn url_tail(path: Option<Seq<Seq<u8>>>, query: Option<Seq<u8>>) -> Seq<u8> {
    match (path, query) {
        (None, None) => Seq::empty(),
        (Some(p), None) => seq![47u8] + joined(p),
        (None, Some(q)) => seq![47u8, 63u8] + q,
        (Some(p), Some(q)) => seq![47u8] + joined(p) + seq![63u8] + q,
    }
}

/// The text of a URL: the scheme, the domain, a dot, the top-level label,
/// and the tail.
pub open spec fn url_text(parts: UrlParts) -> Seq<u8> {
    scheme() + parts.domain + seq![46u8] + parts.tld + url_tail(parts.path, parts.query)
}

/// A label of lower-case letters, as long as asked; of `LABEL_MIN` letters
/// or more and fewer than `LABEL_END` where no length is asked for.
pub open spec fn label(s: Seq<u8>, length: Option<usize>) -> bool {
    &&& lowercase(s)
    &&& match length {
        Some(l) => s.len() == l,
        None => LABEL_MIN <= s.len() < LABEL_END,
    }
}

/// The parts are those of a URL made to order.
pub open spec fn url_fits(
    parts: UrlParts,
    length: Option<usize>,
    segments: Option<u8>,
    query: bool,
) -> bool {
    &&& label(parts.domain, length)
    &&& label(parts.tld, Some(TLD_LEN))
    &&& match segments {
        Some(n) => parts.path matches Some(p) && p.len() == n && forall|i: int|
            0 <= i < p.len() ==> label(#[trigger] p[i], length),
        None => parts.path is None,
    }
    &&& if query {
        parts.query matches Some(q) && label(q, length)
    } else {
        parts.query is None
    }
}

/// Whether `item` is a URL made to order.
pub open spec fn is_url(item: Seq<u8>, length: Option<usize>, segments: Option<u8>, query: bool) -> bool {
    exists|parts: UrlParts| #[trigger]
        url_fits(parts, length, segments, query) && item == url_text(parts)
}

/// Whether `item` is the decimal text of an integer of `min..=max`.
pub open spec fn is_decimal_of(item: Seq<u8>, min: i64, max: i64) -> bool {
    exists|v: int| min <= v <= max && item == #[trigger] decimal(v)
}

/// Whether `item` is an item of `kind`.
pub open spec fn valid_item(kind: ScalarKind, item: Seq<u8>) -> bool {
    match kind {
        ScalarKind::Int { min, max } => is_decimal_of(item, min, max),
        ScalarKind::Uuid(UuidVersion::Empty) => item == uuid_of(48),
        ScalarKind::Uuid(UuidVersion::Max) => item == uuid_of(102),
        ScalarKind::Uuid(UuidVersion::V4) => uuid_v4_text(item),
        ScalarKind::Url { length, segments, query } => is_url(item, length, segments, query),
        ScalarKind::Supplied => true,
    }
}

/// The views of the vectors of a vector.
pub open spec fn views(v: Seq<Vec<u8>>) -> Seq<Seq<u8>> {
    v.map_values(|x: Vec<u8>| x@)
}

fn append_joined(out: &mut Vec<u8>, segments: &Vec<Vec<u8>>)
    ensures
        final(out)@ == old(out)@ + joined(views(segments@)),
{
    let ghost all = views(segments@);
    let mut i: usize = 0;
    proof {
        assert(all.take(0) =~= Seq::<Seq<u8>>::empty());
        assert(old(out)@ + joined(all.take(0)) =~= old(out)@);
    }
    while i < segments.len()
        invariant
            i <= segments.len(),
            all == views(segments@),
            out@ == old(out)@ + joined(all.take(i as int)),
        decreases segments.len() - i,
    {
        let ghost so_far = out@;
        if i > 0 {
            out.push(47);
        }
        append(out, &segments[i]);
        proof {
            let next = all.take(i + 1);
            assert(next.drop_last() =~= all.take(i as int));
            assert(next.last() == segments@[i as int]@);
            if i == 0 {
                assert(joined(next) == next[0]);
                assert(joined(all.take(0)) =~= Seq::<u8>::empty());
                assert(out@ =~= old(out)@ + joined(next));
            } else {
                assert(out@ =~= old(out)@ + (joined(all.take(i as int)) + seq![47u8]
                    + next.last()));
            }
        }
        i += 1;
    }
    assert(all.take(segments.len() as int) =~= all);
}

/// Composes a URL of its parts.
pub fn compose_url(
    domain: &Vec<u8>,
    tld: &Vec<u8>,
    path: &Option<Vec<Vec<u8>>>,
    query: &Option<Vec<u8>>,
) -> (text: Vec<u8>)
    ensures
        text@ == url_text(
            UrlParts {
                domain: domain@,
                tld: tld@,
                path: match path {
                    Some(p) => Some(views(p@)),
                    None => None,
                },
                query: match query {
                    Some(q) => Some(q@),
                    None => None,
                },
            },
        ),
{
    let mut text: Vec<u8> = Vec::new();
    text.push(104);
    text.push(116);
    text.push(116);
    text.push(112);
    text.push(115);
    text.push(58);
    text.push(47);
    text.push(47);
    assert(text@ =~= scheme());
    append(&mut text, domain);
    text.push(46);
    append(&mut text, tld);
    let ghost host = text@;
    assert(host =~= scheme() + domain@ + seq![46u8] + tld@);
    match (path, query) {
        (None, None) => {
            assert(text@ =~= host + Seq::<u8>::empty());
        },
        (Some(p), None) => {
            text.push(47);
            append_joined(&mut text, p);
            assert(text@ =~= host + (seq![47u8] + joined(views(p@))));
        },
        (None, Some(q)) => {
            text.push(47);
            text.push(63);
            append(&mut text, q);
            assert(text@ =~= host + (seq![47u8, 63u8] + q@));
        },
        (Some(p), Some(q)) => {
            text.push(47);
            append_joined(&mut text, p);
            text.push(63);
            append(&mut text, q);
            assert(text@ =~= host + (seq![47u8] + joined(views(p@)) + seq![63u8] + q@));
        },
    }
    text
}

/// A random label: of `length` letters, or of some length from `LABEL_MIN`
/// to below `LABEL_END`.
fn draw_label(length: Option<usize>) -> (text: Vec<u8>)
    requires
        length matches Some(l) ==> l <= usize::MAX / 2,
    ensures
        label(text@, length),
{
    match length {
        Some(l) => random_letters(l),
        None => random_letters_between(LABEL_MIN, LABEL_END),
    }
}

/// Draws a URL: the domain, the top-level label, the path segments and the
/// query are drawn in this order, and then composed.
pub fn draw_url(length: Option<usize>, segments: Option<u8>, query: bool) -> (text: Vec<u8>)
    requires
        length matches Some(l) ==> l <= usize::MAX / 2,
    ensures
        valid_item(ScalarKind::Url { length, segments, query }, text@),
{
    let domain = draw_label(length);
    let tld = draw_label(Some(TLD_LEN));
    let path: Option<Vec<Vec<u8>>> = match segments {
        Some(n) => {
            let mut p: Vec<Vec<u8>> = Vec::new();
            let mut i: u8 = 0;
            while i < n
                invariant
                    i <= n,
                    p@.len() == i,
                    length matches Some(l) ==> l <= usize::MAX / 2,
                    forall|j: int| 0 <= j < p@.len() ==> label(#[trigger] p@[j]@, length),
                decreases n - i,
            {
                let segment = draw_label(length);
                p.push(segment);
                i += 1;
            }
            Some(p)
        },
        None => None,
    };
    let q: Option<Vec<u8>> = if query {
        Some(draw_label(length))
    } else {
        None
    };
    let text = compose_url(&domain, &tld, &path, &q);
    proof {
        let parts = UrlParts {
            domain: domain@,
            tld: tld@,
            path: match path {
                Some(p) => Some(views(p@)),
                None => None,
            },
            query: match q {
                Some(x) => Some(x@),
                None => None,
            },
        };
        assert(url_fits(parts, length, segments, query));
        assert(text@ == url_text(parts));
        assert(is_url(text@, length, segments, query));
    }
    text
}

/// Draws one item of `kind`.
pub fn draw_item(kind: &ScalarKind, rng: &mut rand::rngs::ThreadRng) -> (item: Vec<u8>)
    requires
        kind.wf(),
        kind.drawn(),
    ensures
        valid_item(*kind, item@),
{
    match kind {
        ScalarKind::Int { min, max } => {
            let v: i64 = draw_i64(rng, *min, *max);
            let mut item: Vec<u8> = Vec::new();
            push_decimal(v, &mut item);
            assert(item@ =~= decimal(v as int));
            item
        },
        ScalarKind::Uuid(UuidVersion::Empty) => uuid_nil_text(),
        ScalarKind::Uuid(UuidVersion::Max) => uuid_max_text(),
        ScalarKind::Uuid(UuidVersion::V4) => uuid_v4(),
        ScalarKind::Url { length, segments, query } => draw_url(*length, *segments, *query),
        ScalarKind::Supplied => Vec::new(),
    }
}

} // verus!
