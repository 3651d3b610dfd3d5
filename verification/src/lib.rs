//! A remote HTTP resource presented as a seekable, randomly addressable byte
//! stream. Arbitrary reads are mapped onto fixed-size aligned chunks, served
//! from a fixed-capacity least-recently-used cache, and fetched over a
//! transport boundary when missing.
//!
//! - [`file`] — the random-access reader: size, position, seeking, and the
//!   offset arithmetic that turns reads into aligned chunk accesses
//! - [`cache`] — the chunk cache with strict least-recently-used eviction
//! - [`http_action`] — the fetch orchestration: request building, response
//!   validation, and the reconnect-and-retry loops under a deadline budget
//! - [`transport`] — the request/response data types and the exchange
//!   interface a real connection implements
//! - [`codec`] — the wire form of requests and response lines
//! - [`uri`] — the address parser
//! - [`error`] — the error taxonomy and the transport-failure mapping
//! - [`decimal`], [`strutil`] — the number and text routines the above use

pub mod cache;
pub mod codec;
pub mod decimal;
pub mod error;
pub mod file;
pub mod http_action;
pub mod strutil;
pub mod transport;
pub mod uri;

pub use error::{Error, ErrorType};
pub use file::File;
pub use uri::URI;

use vstd::prelude::*;

verus! {

/// Smallest multiple of `chunk_size` that is no larger than `p`.
pub open spec fn spec_align(p: int, chunk_size: int) -> int
    recommends
        chunk_size > 0,
{
    (p / chunk_size) * chunk_size
}

/// Alignment never moves an offset forward, and moves it back less than one
/// chunk.
pub proof fn lemma_align_bounds(p: int, chunk_size: int)
    requires
        p >= 0,
        chunk_size > 0,
    ensures
        spec_align(p, chunk_size) <= p,
        p - spec_align(p, chunk_size) < chunk_size,
        spec_align(p, chunk_size) >= 0,
        spec_align(p, chunk_size) % chunk_size == 0,
{
    vstd::arithmetic::div_mod::lemma_fundamental_div_mod(p, chunk_size);
    vstd::arithmetic::div_mod::lemma_mod_bound(p, chunk_size);
    vstd::arithmetic::mul::lemma_mul_is_commutative(p / chunk_size, chunk_size);
    assert(p / chunk_size >= 0) by {
        vstd::arithmetic::div_mod::lemma_div_pos_is_pos(p, chunk_size);
    }
    assert((p / chunk_size) * chunk_size % chunk_size == 0) by {
        vstd::arithmetic::div_mod::lemma_mod_multiples_basic(p / chunk_size, chunk_size);
    }
}

/// Alignment is monotone: an earlier position never aligns to a later
/// chunk.
pub proof fn lemma_align_monotonic(x: int, y: int, chunk_size: int)
    requires
        x <= y,
        chunk_size > 0,
    ensures
        spec_align(x, chunk_size) <= spec_align(y, chunk_size),
{
    vstd::arithmetic::div_mod::lemma_div_is_ordered(x, y, chunk_size);
    vstd::arithmetic::mul::lemma_mul_inequality(x / chunk_size, y / chunk_size, chunk_size);
}

} // verus!
