//! The commands, and the request that each of them stands for.

use vstd::prelude::*;
use crate::alphabet::{AlphabetSpec, Universe};
use crate::args::{ByteSize, IntRange, Size, UnicodeEncoding, UuidVersion};
use crate::codec::Encoding;
use crate::error::{ConfigIssue, GenError};
use crate::items::ScalarKind;
use crate::progress::Meter;
use crate::outside::cpu_count;
use crate::request::GenerationRequest;

verus! {

/// What can be generated, with the options of each.
#[derive(Debug, Clone)]
pub enum Command {
    /// Integers of a closed range; `0..99` where none is given.
    Int {
        range: Option<IntRange>,
        amount: Option<Size>,
        threads: Option<usize>,
        buf_size: Option<Size>,
        progress: bool,
    },
    /// UUIDs; of version 4 where none is given.
    Uuid {
        version: Option<UuidVersion>,
        amount: Option<Size>,
        threads: Option<usize>,
        buf_size: Option<Size>,
        progress: bool,
    },
    /// URLs. `resource` asks for path segments: one where no number is given.
    Url {
        length: Option<usize>,
        resource: Option<Option<u8>>,
        query: bool,
        amount: Option<Size>,
        threads: Option<usize>,
        buf_size: Option<Size>,
        progress: bool,
    },
    /// Text of one byte per symbol.
    Ascii {
        size: Option<ByteSize>,
        charset: Option<String>,
        printable_only: bool,
        exclude: Option<String>,
        exclude_codes: Option<Vec<u8>>,
        threads: Option<usize>,
        buf_size: Option<ByteSize>,
        progress: bool,
    },
    /// Text in a Unicode encoding.
    Unicode {
        size: Option<ByteSize>,
        encoding: UnicodeEncoding,
        charset: Option<String>,
        exclude: Option<String>,
        threads: Option<usize>,
        buf_size: Option<ByteSize>,
        progress: bool,
    },
}

/// A request, and how its progress is shown if it is shown.
#[derive(Debug, Clone)]
pub struct Order {
    pub request: GenerationRequest,
    pub meter: Option<Meter>,
}

/// Lower end of the range of integers where none is given.
pub const DEFAULT_MIN: i64 = 0;

/// Upper end of the range of integers where none is given.
pub const DEFAULT_MAX: i64 = 99;

/// The count that `amount` stands for, if it fits the machine.
pub open spec fn count_of(amount: Option<Size>) -> Result<Option<usize>, GenError> {
    match amount {
        None => Ok(None),
        Some(a) => if a.count() <= usize::MAX {
            Ok(Some(a.count() as usize))
        } else {
            Err(GenError::ConfigError(ConfigIssue::OutOfRange))
        },
    }
}

/// The bytes that `size` stands for, if they fit the machine.
pub open spec fn bytes_of(size: Option<ByteSize>) -> Result<Option<usize>, GenError> {
    match size {
        None => Ok(None),
        Some(s) => if s.bytes() <= usize::MAX {
            Ok(Some(s.bytes() as usize))
        } else {
            Err(GenError::ConfigError(ConfigIssue::OutOfRange))
        },
    }
}

/// The meter of a text of `size`: binary unless the size is written in a
/// decimal unit.
pub open spec fn byte_meter(size: Option<ByteSize>) -> Meter {
    match size {
        Some(s) => if s.unit.decimal() {
            Meter::DecimalBytes
        } else {
            Meter::BinaryBytes
        },
        None => Meter::BinaryBytes,
    }
}

/// An alphabet description for requests that have no alphabet.
pub open spec fn no_alphabet() -> AlphabetSpec {
    AlphabetSpec { universe: Universe::AsciiFull, charset: None, exclude: None, exclude_codes: None }
}

/// The request of a scalar stream.
pub open spec fn lines_order(
    items: ScalarKind,
    amount: Option<Size>,
    threads: Option<usize>,
    buf_size: Option<Size>,
    progress: bool,
    daemon: bool,
    cpus: usize,
) -> Result<Order, GenError> {
    match (count_of(amount), count_of(buf_size)) {
        (Ok(total), Ok(buffer)) => Ok(
            Order {
                request: GenerationRequest {
                    total,
                    encoding: Encoding::ScalarStream,
                    alphabet_spec: no_alphabet(),
                    items,
                    worker_count: match threads {
                        Some(t) => t,
                        None => cpus,
                    },
                    buffer_capacity: buffer,
                    streaming: daemon && amount is None,
                },
                meter: if progress && !daemon {
                    Some(Meter::Items)
                } else {
                    None
                },
            },
        ),
        _ => Err(GenError::ConfigError(ConfigIssue::OutOfRange)),
    }
}

/// The request of a text.
pub open spec fn text_order(
    encoding: Encoding,
    alphabet_spec: AlphabetSpec,
    size: Option<ByteSize>,
    threads: Option<usize>,
    buf_size: Option<ByteSize>,
    progress: bool,
    daemon: bool,
    cpus: usize,
) -> Result<Order, GenError> {
    match (bytes_of(size), bytes_of(buf_size)) {
        (Ok(total), Ok(buffer)) => Ok(
            Order {
                request: GenerationRequest {
                    total,
                    encoding,
                    alphabet_spec,
                    items: ScalarKind::Supplied,
                    worker_count: match threads {
                        Some(t) => t,
                        None => cpus,
                    },
                    buffer_capacity: buffer,
                    streaming: daemon && size is None,
                },
                meter: if progress {
                    Some(byte_meter(size))
                } else {
                    None
                },
            },
        ),
        _ => Err(GenError::ConfigError(ConfigIssue::OutOfRange)),
    }
}

impl Command {
    /// The items of a scalar stream that the command asks for.
    pub open spec fn items(self) -> ScalarKind {
        match self {
            Command::Int { range, .. } => match range {
                Some(r) => ScalarKind::Int { min: r.min, max: r.max },
                None => ScalarKind::Int { min: DEFAULT_MIN, max: DEFAULT_MAX },
            },
            Command::Uuid { version, .. } => match version {
                Some(v) => ScalarKind::Uuid(v),
                None => ScalarKind::Uuid(UuidVersion::V4),
            },
            Command::Url { length, resource, query, .. } => ScalarKind::Url {
                length,
                segments: match resource {
                    Some(Some(n)) => Some(n),
                    Some(None) => Some(1u8),
                    None => None,
                },
                query,
            },
            _ => ScalarKind::Supplied,
        }
    }

    /// The request that the command stands for on a machine of `cpus`
    /// processors: a command that names no number of threads gets a worker
    /// for each processor. In daemon mode a command without size or amount
    /// streams; a Unicode text cannot be had in daemon mode at all. Sizes
    /// that do not fit the machine are refused.
    pub open spec fn order(self, daemon: bool, cpus: usize) -> Result<Order, GenError> {
        match self {
            Command::Int { range, amount, threads, buf_size, progress } => lines_order(
                self.items(),
                amount,
                threads,
                buf_size,
                progress,
                daemon,
                cpus,
            ),
            Command::Uuid { version, amount, threads, buf_size, progress } => lines_order(
                self.items(),
                amount,
                threads,
                buf_size,
                progress,
                daemon,
                cpus,
            ),
            Command::Url {
                length,
                resource,
                query,
                amount,
                threads,
                buf_size,
                progress,
            } => lines_order(self.items(), amount, threads, buf_size, progress, daemon, cpus),
            Command::Ascii {
                size,
                charset,
                printable_only,
                exclude,
                exclude_codes,
                threads,
                buf_size,
                progress,
            } => text_order(
                Encoding::RawByte,
                AlphabetSpec {
                    universe: if printable_only {
                        Universe::AsciiPrintable
                    } else {
                        Universe::AsciiFull
                    },
                    charset,
                    exclude,
                    exclude_codes,
                },
                size,
                threads,
                buf_size,
                progress,
                daemon,
                cpus,
            ),
            Command::Unicode { size, encoding, charset, exclude, threads, buf_size, progress } => {
                if daemon {
                    Err(GenError::ConfigError(ConfigIssue::StreamingUnsupported))
                } else {
                    text_order(
                        encoding.target(),
                        AlphabetSpec {
                            universe: Universe::Unicode,
                            charset,
                            exclude,
                            exclude_codes: None,
                        },
                        size,
                        threads,
                        buf_size,
                        progress,
                        daemon,
                        cpus,
                    )
                }
            },
        }
    }

    /// Whether the command names its number of threads.
    pub open spec fn names_threads(self) -> bool {
        match self {
            Command::Int { threads, .. } => threads is Some,
            Command::Uuid { threads, .. } => threads is Some,
            Command::Url { threads, .. } => threads is Some,
            Command::Ascii { threads, .. } => threads is Some,
            Command::Unicode { threads, .. } => threads is Some,
        }
    }

    /// Turns the command into its request, for a machine of `cpus` processors.
    pub fn into_order(self, daemon: bool, cpus: usize) -> (r: Result<Order, GenError>)
        ensures
            r == self.order(daemon, cpus),
    {
        match self {
            Command::Int { range, amount, threads, buf_size, progress } => {
                let items = match range {
                    Some(r) => ScalarKind::Int { min: r.min, max: r.max },
                    None => ScalarKind::Int { min: DEFAULT_MIN, max: DEFAULT_MAX },
                };
                make_lines_order(items, amount, threads, buf_size, progress, daemon, cpus)
            },
            Command::Uuid { version, amount, threads, buf_size, progress } => {
                let items = match version {
                    Some(v) => ScalarKind::Uuid(v),
                    None => ScalarKind::Uuid(UuidVersion::V4),
                };
                make_lines_order(items, amount, threads, buf_size, progress, daemon, cpus)
            },
            Command::Url { length, resource, query, amount, threads, buf_size, progress } => {
                let segments: Option<u8> = match resource {
                    Some(Some(n)) => Some(n),
                    Some(None) => Some(1),
                    None => None,
                };
                let items = ScalarKind::Url { length, segments, query };
                make_lines_order(items, amount, threads, buf_size, progress, daemon, cpus)
            },
            Command::Ascii {
                size,
                charset,
                printable_only,
                exclude,
                exclude_codes,
                threads,
                buf_size,
                progress,
            } => {
                let universe = if printable_only {
                    Universe::AsciiPrintable
                } else {
                    Universe::AsciiFull
                };
                make_text_order(
                    Encoding::RawByte,
                    AlphabetSpec { universe, charset, exclude, exclude_codes },
                    size,
                    threads,
                    buf_size,
                    progress,
                    daemon,
                    cpus,
                )
            },
            Command::Unicode { size, encoding, charset, exclude, threads, buf_size, progress } => {
                if daemon {
                    return Err(GenError::ConfigError(ConfigIssue::StreamingUnsupported));
                }
                make_text_order(
                    encoding.encoding(),
                    AlphabetSpec {
                        universe: Universe::Unicode,
                        charset,
                        exclude,
                        exclude_codes: None,
                    },
                    size,
                    threads,
                    buf_size,
                    progress,
                    daemon,
                    cpus,
                )
            },
        }
    }

    /// Turns the command into its request on this machine, which has one
    /// processor at least. The number of processors matters only to a
    /// command that names no number of threads.
    pub fn into_order_here(self, daemon: bool) -> (r: Result<Order, GenError>)
        ensures
            exists|cpus: usize| cpus >= 1 && r == #[trigger] self.order(daemon, cpus),
    {
        let cpus: usize = cpu_count();
        let r = self.into_order(daemon, cpus);
        assert(r == self.order(daemon, cpus));
        r
    }
}

fn count(amount: Option<Size>) -> (r: Result<Option<usize>, GenError>)
    ensures
        r == count_of(amount),
{
    match amount {
        None => Ok(None),
        Some(a) => match a.checked_get() {
            Some(n) => Ok(Some(n)),
            None => Err(GenError::ConfigError(ConfigIssue::OutOfRange)),
        },
    }
}

fn bytes(size: Option<ByteSize>) -> (r: Result<Option<usize>, GenError>)
    ensures
        r == bytes_of(size),
{
    match size {
        None => Ok(None),
        Some(s) => match s.checked_to_bytes() {
            Some(n) => Ok(Some(n)),
            None => Err(GenError::ConfigError(ConfigIssue::OutOfRange)),
        },
    }
}

fn make_lines_order(
    items: ScalarKind,
    amount: Option<Size>,
    threads: Option<usize>,
    buf_size: Option<Size>,
    progress: bool,
    daemon: bool,
    cpus: usize,
) -> (r: Result<Order, GenError>)
    ensures
        r == lines_order(items, amount, threads, buf_size, progress, daemon, cpus),
{
    let total = match count(amount) {
        Ok(t) => t,
        Err(e) => {
            return Err(e);
        },
    };
    let buffer = match count(buf_size) {
        Ok(b) => b,
        Err(e) => {
            return Err(e);
        },
    };
    Ok(
        Order {
            request: GenerationRequest {
                total,
                encoding: Encoding::ScalarStream,
                alphabet_spec: AlphabetSpec {
                    universe: Universe::AsciiFull,
                    charset: None,
                    exclude: None,
                    exclude_codes: None,
                },
                items,
                worker_count: match threads {
                    Some(t) => t,
                    None => cpus,
                },
                buffer_capacity: buffer,
                streaming: daemon && amount.is_none(),
            },
            meter: if progress && !daemon {
                Some(Meter::Items)
            } else {
                None
            },
        },
    )
}

fn make_text_order(
    encoding: Encoding,
    alphabet_spec: AlphabetSpec,
    size: Option<ByteSize>,
    threads: Option<usize>,
    buf_size: Option<ByteSize>,
    progress: bool,
    daemon: bool,
    cpus: usize,
) -> (r: Result<Order, GenError>)
    ensures
        r == text_order(encoding, alphabet_spec, size, threads, buf_size, progress, daemon, cpus),
{
    let total = match bytes(size) {
        Ok(t) => t,
        Err(e) => {
            return Err(e);
        },
    };
    let buffer = match bytes(buf_size) {
        Ok(b) => b,
        Err(e) => {
            return Err(e);
        },
    };
    let meter: Option<Meter> = if progress {
        Some(
            match size {
                Some(s) => if s.is_decimal_unit() {
                    Meter::DecimalBytes
                } else {
                    Meter::BinaryBytes
                },
                None => Meter::BinaryBytes,
            },
        )
    } else {
        None
    };
    Ok(
        Order {
            request: GenerationRequest {
                total,
                encoding,
                alphabet_spec,
                items: ScalarKind::Supplied,
                worker_count: match threads {
                    Some(t) => t,
                    None => cpus,
                },
                buffer_capacity: buffer,
                streaming: daemon && size.is_none(),
            },
            meter,
        },
    )
}

} // verus!
