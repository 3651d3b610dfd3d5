//! The random-access reader: presents the remote resource as a seekable
//! byte stream, mapping arbitrary reads onto aligned fixed-size chunks that
//! are served from the cache or fetched over the exchange.
//!
//! The mathematical model of the stream's content is [`File::spec_fetched`]:
//! the bytes most recently fetched for each aligned chunk offset. Every
//! cached chunk agrees with that map, and every read returns exactly the
//! bytes the map gives — whether they came from the cache or from a fresh
//! fetch, which is what makes the cache transparent.

use vstd::prelude::*;
use crate::cache::{zero_chunk, CacheDB};
use crate::error::{Error, ErrorType};
use crate::http_action::{receive_chunk, receive_size, spec_probe_error};
use crate::spec_align;
use crate::lemma_align_bounds;
use crate::transport::HttpExchange;
use crate::uri::{names_last_segment, spec_uri_ok, URI};

verus! {

/// The chunk width a fresh stream caches with.
pub const DEFAULT_CACHE_CHUNK_SIZE: usize = 131072;

/// The number of cache slots a fresh stream starts with.
pub const DEFAULT_CACHE_CHUNK_COUNT: usize = 2048;

/// A remote resource opened for random access.
pub struct File<T: HttpExchange> {
    size: u64,
    position: u64,
    name: String,
    server: String,
    resource: String,
    exchange: T,
    chunk_buf: Vec<u8>,
    cache: CacheDB,
    fetched: Ghost<Map<u64, Seq<u8>>>,
}

impl<T: HttpExchange> File<T> {
    /// The resource's total size in bytes.
    pub closed spec fn spec_size(self) -> u64 {
        self.size
    }

    /// The stream position that sequential reads advance.
    pub closed spec fn spec_position(self) -> u64 {
        self.position
    }

    /// The display name of the resource.
    pub closed spec fn spec_name(self) -> Seq<char> {
        self.name@
    }

    /// The configured chunk width.
    pub closed spec fn chunk_size(self) -> nat {
        self.chunk_buf@.len()
    }

    /// The bytes most recently fetched for each aligned chunk offset: the
    /// model of the resource's content as this stream has seen it.
    pub closed spec fn spec_fetched(self) -> Map<u64, Seq<u8>> {
        self.fetched@
    }

    /// Whether the cache currently holds the chunk at `aligned`.
    pub closed spec fn spec_cached(self, aligned: u64) -> bool {
        self.cache.spec_contains(aligned)
    }

    /// The cache's recency order, oldest first.
    pub closed spec fn cache_recency(self) -> Seq<(Option<u64>, Seq<u8>)> {
        self.cache.recency()
    }

    /// The real length of the aligned chunk at `aligned`: the configured
    /// width, except that the stream's final chunk may be shorter.
    pub open spec fn spec_chunk_len(self, aligned: u64) -> nat
        recommends
            aligned < self.spec_size(),
    {
        if self.spec_size() - aligned < self.chunk_size() {
            (self.spec_size() - aligned) as nat
        } else {
            self.chunk_size()
        }
    }

    /// The aligned offset of the chunk that holds stream position `p`.
    pub open spec fn spec_chunk_of(self, p: int) -> u64 {
        spec_align(p, self.chunk_size() as int) as u64
    }

    /// The byte at stream position `p`, as most recently fetched.
    pub open spec fn spec_byte(self, p: int) -> u8 {
        let base = self.spec_chunk_of(p);
        self.spec_fetched()[base][p - base]
    }

    /// The number of cache slots.
    pub open spec fn spec_cache_count(self) -> nat {
        self.cache_recency().len()
    }

    /// Whether `off` is one of the aligned chunks covering `count` bytes
    /// at `offset`.
    pub open spec fn spec_covers(self, offset: int, count: int, off: u64) -> bool {
        exists|k: int| 0 <= k < count && off == #[trigger] self.spec_chunk_of(offset + k)
    }

    /// The number of aligned chunks covering `count` bytes at `offset`.
    pub open spec fn spec_span_chunks(self, offset: int, count: int) -> int {
        let cs = self.chunk_size() as int;
        (offset - spec_align(offset, cs) + count + cs - 1) / cs
    }

    /// The count a read returns: the buffer's length clamped to the bytes
    /// remaining before end-of-stream.
    pub open spec fn spec_read_count(self, buffer_len: int, offset: u64) -> int {
        if buffer_len <= self.spec_size() - offset {
            buffer_len
        } else {
            self.spec_size() - offset
        }
    }

    /// Whether every chunk covering `count` bytes at `offset` sits in the
    /// cache.
    pub open spec fn spec_span_cached(self, offset: int, count: int) -> bool {
        forall|k: int|
            0 <= k < count ==> self.spec_cached(#[trigger] self.spec_chunk_of(offset + k))
    }

    /// The cache is invisible in the read model: the byte a read returns
    /// at a position depends only on the chunk width and the fetched
    /// bytes, never on which chunks happen to sit in the cache.
    pub proof fn lemma_cache_transparent(self, other: File<T>, p: int)
        requires
            self.chunk_size() == other.chunk_size(),
            self.spec_fetched() == other.spec_fetched(),
        ensures
            self.spec_byte(p) == other.spec_byte(p),
    {
    }

    /// The position never passes the end of the stream, so a relative
    /// seek by zero always lands inside `[0, size]` and succeeds.
    pub proof fn lemma_position_in_bounds(self)
        requires
            self.wf(),
        ensures
            self.spec_position() <= self.spec_size(),
    {
    }

    /// The stream's invariant: the cache is well-formed and matches the
    /// scratch buffer's width, the position never passes the end, chunk
    /// arithmetic stays inside `u64`, the fetched-bytes model holds one
    /// correctly sized entry per fetched aligned chunk, and every cached
    /// chunk carries exactly its fetched bytes.
    pub closed spec fn wf(self) -> bool {
        &&& self.cache.wf()
        &&& self.chunk_buf@.len() >= 1
        &&& self.cache.slot_size() == self.chunk_buf@.len()
        &&& self.position <= self.size
        &&& self.chunk_buf@.len() as u64 <= u64::MAX - self.size
        &&& (forall|off: u64| #[trigger]
            self.fetched@.contains_key(off) ==> off % (self.chunk_buf@.len() as u64) == 0 && off
                < self.size && self.fetched@[off].len() == self.spec_chunk_len(off))
        &&& (forall|i: int|
            0 <= i < self.cache.count() && (#[trigger] self.cache.recency()[i]).0 is Some ==> {
                let off = self.cache.recency()[i].0->Some_0;
                &&& self.fetched@.contains_key(off)
                &&& self.cache.recency()[i].1.take(self.spec_chunk_len(off) as int)
                    == self.fetched@[off]
            })
    }

    /// Opens a resource address for random access: parses the address,
    /// probes the remote size over the exchange, and starts with a
    /// default-sized, empty cache at position zero.
    pub fn open(uri: &str, exchange: T) -> (r: Result<File<T>, Error>)
        ensures
            r matches Ok(f) ==> {
                &&& f.wf()
                &&& f.spec_position() == 0
                &&& f.chunk_size() == DEFAULT_CACHE_CHUNK_SIZE
                &&& f.spec_fetched() == Map::<u64, Seq<u8>>::empty()
                &&& (forall|off: u64| !f.spec_cached(off))
                &&& names_last_segment(uri@, f.spec_name())
            },
            r is Ok ==> spec_uri_ok(uri@),
            !spec_uri_ok(uri@) ==> (r matches Err(e) && e.error_type is InvalidParameter),
            r matches Err(e) ==> spec_uri_ok(uri@) ==> (spec_probe_error(e.error_type)
                || e.error_type is Unsupported),
    {
        let parsed = match URI::parse(uri) {
            Ok(p) => p,
            Err(e) => {
                return Err(e);
            },
        };
        let mut exchange = exchange;
        exchange.begin();
        let size = match receive_size(&mut exchange, parsed.server.as_str(), parsed.resource.as_str()) {
            Ok(s) => s,
            Err(e) => {
                return Err(e);
            },
        };
        if size > u64::MAX - (DEFAULT_CACHE_CHUNK_SIZE as u64) {
            return Err(
                Error::with_text(
                    ErrorType::Unsupported,
                    "The resource is too large for chunked access",
                ),
            );
        }
        let f = File {
            size,
            position: 0,
            name: parsed.name,
            server: parsed.server,
            resource: parsed.resource,
            exchange,
            chunk_buf: zero_chunk(DEFAULT_CACHE_CHUNK_SIZE),
            cache: CacheDB::new(DEFAULT_CACHE_CHUNK_COUNT, DEFAULT_CACHE_CHUNK_SIZE),
            fetched: Ghost(Map::empty()),
        };
        Ok(f)
    }

    /// Replaces the cache and the scratch buffer with freshly sized ones,
    /// discarding all cached chunks. A zero chunk count or size, or a chunk
    /// size that would push chunk arithmetic past the integer range, is
    /// rejected as an invalid parameter, and then nothing changes.
    pub fn adjust_cache_size(&mut self, chunk_count: usize, chunk_size: usize) -> (r: Result<
        (),
        Error,
    >)
        requires
            old(self).wf(),
        ensures
            final(self).wf(),
            final(self).spec_size() == old(self).spec_size(),
            final(self).spec_position() == old(self).spec_position(),
            final(self).spec_name() == old(self).spec_name(),
            r is Ok <==> (chunk_count >= 1 && chunk_size >= 1 && chunk_size as u64 <= u64::MAX
                - old(self).spec_size()),
            r is Ok ==> {
                &&& final(self).chunk_size() == chunk_size
                &&& final(self).cache_recency().len() == chunk_count
                &&& final(self).spec_fetched() == Map::<u64, Seq<u8>>::empty()
                &&& forall|off: u64| !final(self).spec_cached(off)
            },
            r matches Err(e) ==> {
                &&& e.error_type is InvalidParameter
                &&& final(self).chunk_size() == old(self).chunk_size()
                &&& final(self).spec_fetched() == old(self).spec_fetched()
            },
    {
        if chunk_count == 0 || chunk_size == 0 {
            return Err(
                Error::with_text(
                    ErrorType::InvalidParameter,
                    "A cache needs at least one slot of at least one byte",
                ),
            );
        }
        if (chunk_size as u64) > u64::MAX - self.size {
            return Err(
                Error::with_text(
                    ErrorType::InvalidParameter,
                    "The chunk size is too large for this resource",
                ),
            );
        }
        self.chunk_buf = zero_chunk(chunk_size);
        self.cache = CacheDB::new(chunk_count, chunk_size);
        self.fetched = Ghost(Map::empty());
        Ok(())
    }

    /// Returns the file-size.
    pub fn size(&self) -> (r: u64)
        ensures
            r == self.spec_size(),
    {
        self.size
    }

    /// Returns the file-name.
    pub fn name(&self) -> (r: &str)
        ensures
            r@ == self.spec_name(),
    {
        self.name.as_str()
    }

    /// Returns the current file-position.
    pub fn tell(&self) -> (r: u64)
        ensures
            r == self.spec_position(),
    {
        self.position
    }

    /// Adjusts the current file-position: to `position + by` when
    /// `relative` is set, to `by` from the start otherwise. A target
    /// outside `[0, size]` is an invalid-parameter error and leaves the
    /// position unchanged.
    pub fn seek(&mut self, by: i64, relative: bool) -> (r: Result<(), Error>)
        requires
            old(self).wf(),
        ensures
            final(self).wf(),
            final(self).spec_size() == old(self).spec_size(),
            final(self).spec_name() == old(self).spec_name(),
            final(self).chunk_size() == old(self).chunk_size(),
            final(self).spec_fetched() == old(self).spec_fetched(),
            final(self).cache_recency() == old(self).cache_recency(),
            ({
                let base: int = if relative {
                    old(self).spec_position() as int
                } else {
                    0
                };
                let target: int = base + by;
                &&& (0 <= target <= old(self).spec_size() ==> r is Ok && final(self).spec_position() == target)
                &&& (!(0 <= target <= old(self).spec_size()) ==> (r matches Err(e)
                    && e.error_type is InvalidParameter) && final(self).spec_position() == old(self).spec_position())
            }),
    {
        let base: u64 = if relative {
            self.position
        } else {
            0
        };
        if by >= 0 {
            let delta = by as u64;
            if delta > self.size - base {
                return Err(Error::with_text(ErrorType::InvalidParameter, "Cannot seek beyond EOF"));
            }
            self.position = base + delta;
        } else {
            // the magnitude of a negative value, computed without the
            // overflow that negating the minimum would be
            let mag: u64 = ((-(by + 1)) as u64) + 1;
            if mag > base {
                return Err(Error::with_text(ErrorType::InvalidParameter, "Cannot seek before 0"));
            }
            self.position = base - mag;
        }
        Ok(())
    }

    /// Stages the aligned chunk at `aligned_offset` into the scratch
    /// buffer: from the cache when it is there (marking it most recently
    /// used and touching nothing else), otherwise by fetching it over the
    /// exchange, recording its bytes in the fetched model, and inserting it
    /// into the cache under the eviction policy. Either way, on success the
    /// scratch buffer's prefix of the chunk's real length holds exactly the
    /// chunk's fetched bytes.
    fn read_chunk(&mut self, aligned_offset: u64) -> (r: Result<(), Error>)
        requires
            old(self).wf(),
            aligned_offset % (old(self).chunk_size() as u64) == 0,
            aligned_offset < old(self).spec_size(),
        ensures
            final(self).wf(),
            final(self).spec_size() == old(self).spec_size(),
            final(self).spec_position() == old(self).spec_position(),
            final(self).spec_name() == old(self).spec_name(),
            final(self).chunk_size() == old(self).chunk_size(),
            final(self).spec_fetched().remove(aligned_offset) == old(self).spec_fetched().remove(
                aligned_offset,
            ),
            r is Ok ==> {
                &&& final(self).spec_fetched().contains_key(aligned_offset)
                &&& final(self).scratch().take(final(self).spec_chunk_len(aligned_offset) as int)
                    == final(self).spec_fetched()[aligned_offset]
                &&& final(self).spec_cached(aligned_offset)
            },
            old(self).spec_cached(aligned_offset) ==> r is Ok && final(self).spec_fetched() == old(self).spec_fetched() && (forall|off: u64|
                final(self).spec_cached(off) <==> old(self).spec_cached(off)),
            r is Ok && old(self).spec_cached(aligned_offset) ==> exists|j: int|
                {
                    &&& 0 <= j < old(self).cache_recency().len()
                    &&& (#[trigger] old(self).cache_recency()[j]).0 == Some(aligned_offset)
                    &&& final(self).cache_recency() == old(self).cache_recency().remove(j).push(
                        old(self).cache_recency()[j],
                    )
                },
            r is Ok && !old(self).spec_cached(aligned_offset) ==> {
                &&& final(self).cache_recency().len() == old(self).cache_recency().len()
                &&& final(self).cache_recency() == old(self).cache_recency().subrange(
                    1,
                    old(self).cache_recency().len() as int,
                ).push(final(self).cache_recency()[old(self).cache_recency().len() - 1])
                &&& final(self).cache_recency()[old(self).cache_recency().len() - 1].0 == Some(
                    aligned_offset,
                )
            },
            r is Err ==> final(self).spec_fetched() == old(self).spec_fetched() && final(self).cache_recency() == old(self).cache_recency(),
            forall|off: u64|
                #[trigger] final(self).spec_cached(off) ==> off == aligned_offset || old(self).spec_cached(off),
    {
        let chunk_size = self.chunk_buf.len();
        let remaining = self.size - aligned_offset;
        let this_len: usize = if remaining < chunk_size as u64 {
            remaining as usize
        } else {
            chunk_size
        };
        proof {
            self.cache.lemma_wf_facts();
            assert(this_len == self.spec_chunk_len(aligned_offset));
        }
        if self.cache.contains(aligned_offset) {
            let ghost pre_cache = self.cache;
            let ghost j = self.cache.index_of(aligned_offset);
            let data = self.cache.get(aligned_offset);
            self.chunk_buf = data;
            proof {
                crate::cache::lemma_get_preserves_contains(pre_cache, self.cache, j);
                let pre_rec = pre_cache.recency();
                let post_rec = self.cache.recency();
                assert forall|i: int|
                    0 <= i < post_rec.len() && (#[trigger] post_rec[i]).0 is Some implies {
                    let off = post_rec[i].0->Some_0;
                    &&& self.fetched@.contains_key(off)
                    &&& post_rec[i].1.take(self.spec_chunk_len(off) as int) == self.fetched@[off]
                } by {
                    if i == post_rec.len() - 1 {
                        assert(post_rec[i] == pre_rec[j]);
                    } else if i < j {
                        assert(post_rec[i] == pre_rec[i]);
                    } else {
                        assert(post_rec[i] == pre_rec[i + 1]);
                    }
                }
                assert(self.chunk_buf@ == pre_cache.data_of(aligned_offset));
                assert(pre_rec[j].0 == Some(aligned_offset));
                assert(self.chunk_buf@.len() == chunk_size);
                assert(self.scratch().take(self.spec_chunk_len(aligned_offset) as int)
                    == self.fetched@[aligned_offset]);
                assert(0 <= j < old(self).cache_recency().len());
                assert(old(self).cache_recency()[j].0 == Some(aligned_offset));
                assert(self.cache_recency() == old(self).cache_recency().remove(j).push(
                    old(self).cache_recency()[j],
                ));
            }
            Ok(())
        } else {
            let data = match receive_chunk(
                &mut self.exchange,
                self.server.as_str(),
                self.resource.as_str(),
                this_len,
                aligned_offset,
            ) {
                Ok(d) => d,
                Err(e) => {
                    return Err(e);
                },
            };
            // stage the fetched bytes into the scratch buffer's prefix
            let mut k: usize = 0;
            while k < this_len
                invariant
                    this_len == data@.len(),
                    this_len <= self.chunk_buf@.len(),
                    k <= this_len,
                    self.chunk_buf@.len() == old(self).chunk_size(),
                    forall|t: int| 0 <= t < k ==> self.chunk_buf@[t] == data@[t],
                    self.size == old(self).spec_size(),
                    self.position == old(self).spec_position(),
                    self.name@ == old(self).spec_name(),
                    self.cache == old(self).cache,
                    self.fetched@ == old(self).spec_fetched(),
                decreases this_len - k,
            {
                let b = data[k];
                self.chunk_buf[k] = b;
                k += 1;
            }
            let ghost pre_cache = self.cache;
            proof {
                self.fetched@ = self.fetched@.insert(aligned_offset, data@);
            }
            self.cache.insert(data.as_slice(), aligned_offset);
            proof {
                self.cache.lemma_wf_facts();
                let pre_rec = pre_cache.recency();
                let post_rec = self.cache.recency();
                let pushed = (
                    Some(aligned_offset),
                    data@ + pre_rec[0].1.skip(data@.len() as int),
                );
                assert(pushed.1.take(this_len as int) =~= data@);
                assert forall|i: int|
                    0 <= i < post_rec.len() && (#[trigger] post_rec[i]).0 is Some implies {
                    let off = post_rec[i].0->Some_0;
                    &&& self.fetched@.contains_key(off)
                    &&& post_rec[i].1.take(self.spec_chunk_len(off) as int) == self.fetched@[off]
                } by {
                    if i < post_rec.len() - 1 {
                        assert(post_rec[i] == pre_rec.subrange(1, pre_cache.count() as int)[i]);
                        assert(post_rec[i] == pre_rec[i + 1]);
                        if post_rec[i].0 is Some {
                            let off = post_rec[i].0->Some_0;
                            assert(off != aligned_offset);
                        }
                    } else {
                        assert(post_rec[i] == pushed);
                    }
                }
                crate::cache::lemma_insert_retention(pre_cache, self.cache, aligned_offset, pushed);
                assert(self.scratch().take(this_len as int) =~= data@);
                assert(self.cache.recency()[pre_cache.recency().len() - 1] == pushed);
                assert(self.cache.recency() == pre_cache.recency().subrange(
                    1,
                    pre_cache.recency().len() as int,
                ).push(self.cache.recency()[pre_cache.recency().len() - 1]));
            }
            Ok(())
        }
    }

    /// The scratch buffer's contents.
    closed spec fn scratch(self) -> Seq<u8> {
        self.chunk_buf@
    }

    /// Fills `buffer[0 .. count]` with the stream bytes starting at
    /// `offset`, walking the aligned chunks that cover the span in
    /// increasing order: the first chunk contributes its tail from the
    /// unaligned start, later chunks their heads, until `count` bytes are
    /// copied. Positions past `count` in the buffer keep their bytes.
    fn read_range(&mut self, buffer: &mut Vec<u8>, count: usize, offset: u64) -> (r: Result<
        (),
        Error,
    >)
        requires
            old(self).wf(),
            count <= old(buffer).len(),
            offset + count <= old(self).spec_size(),
        ensures
            final(self).wf(),
            final(self).spec_size() == old(self).spec_size(),
            final(self).spec_position() == old(self).spec_position(),
            final(self).spec_name() == old(self).spec_name(),
            final(self).chunk_size() == old(self).chunk_size(),
            final(buffer).len() == old(buffer).len(),
            forall|k: int| count <= k < old(buffer).len() ==> final(buffer)@[k] == old(buffer)@[k],
            r is Ok ==> forall|k: int|
                0 <= k < count ==> final(buffer)@[k] == final(self).spec_byte(offset + k),
            old(self).spec_span_cached(offset as int, count as int) ==> {
                &&& r is Ok
                &&& final(self).spec_fetched() == old(self).spec_fetched()
                &&& (forall|off: u64|
                    final(self).spec_cached(off) <==> old(self).spec_cached(off))
            },
            forall|off: u64| #[trigger]
                final(self).spec_fetched().contains_key(off) ==> old(self).spec_fetched().contains_key(off) || old(self).spec_covers(
                    offset as int,
                    count as int,
                    off,
                ),
            forall|off: u64|
                old(self).spec_fetched().contains_key(off) && !old(self).spec_covers(
                    offset as int,
                    count as int,
                    off,
                ) ==> #[trigger] final(self).spec_fetched().contains_key(off) && final(self).spec_fetched()[off] == old(self).spec_fetched()[off],
            forall|off: u64| #[trigger]
                final(self).spec_cached(off) ==> old(self).spec_cached(off) || old(self).spec_covers(offset as int, count as int, off),
            r is Ok && old(self).spec_span_chunks(offset as int, count as int) <= old(self).spec_cache_count() ==> forall|k: int|
                0 <= k < count ==> final(self).spec_cached(
                    #[trigger] final(self).spec_chunk_of(offset + k),
                ),
    {
        let chunk_size = self.chunk_buf.len();
        let ghost a0: int = spec_align(offset as int, chunk_size as int);
        let ghost total: int = old(self).spec_span_chunks(offset as int, count as int);
        let ghost mut m: int = 0;
        proof {
            lemma_align_bounds(offset as int, chunk_size as int);
            vstd::arithmetic::div_mod::lemma_div_pos_is_pos(
                offset - a0 + count + chunk_size as int - 1,
                chunk_size as int,
            );
        }
        let mut buffer_pos: usize = 0;
        while buffer_pos < count
            invariant
                self.wf(),
                chunk_size == self.chunk_size(),
                self.chunk_size() == old(self).chunk_size(),
                self.spec_size() == old(self).spec_size(),
                self.spec_position() == old(self).spec_position(),
                self.spec_name() == old(self).spec_name(),
                buffer_pos <= count,
                count <= buffer.len(),
                buffer.len() == old(buffer).len(),
                offset + count <= self.spec_size(),
                0 < buffer_pos < count ==> (offset + buffer_pos) % (chunk_size as int) == 0,
                forall|k: int| count <= k < buffer.len() ==> buffer@[k] == old(buffer)@[k],
                forall|k: int|
                    0 <= k < buffer_pos ==> #[trigger] buffer@[k] == self.spec_byte(offset + k),
                forall|k: int|
                    0 <= k < buffer_pos ==> self.spec_fetched().contains_key(
                        #[trigger] self.spec_chunk_of(offset + k),
                    ),
                old(self).spec_span_cached(offset as int, count as int) ==> {
                    &&& self.spec_fetched() == old(self).spec_fetched()
                    &&& (forall|off: u64| self.spec_cached(off) <==> old(self).spec_cached(off))
                },
                a0 == spec_align(offset as int, chunk_size as int),
                total == old(self).spec_span_chunks(offset as int, count as int),
                0 <= m,
                buffer_pos == 0 ==> m == 0,
                buffer_pos > 0 ==> offset + buffer_pos <= a0 + m * (chunk_size as int),
                0 < buffer_pos < count ==> offset + buffer_pos == a0 + m * (chunk_size as int),
                forall|off: u64| #[trigger]
                    self.spec_fetched().contains_key(off) ==> old(self).spec_fetched().contains_key(off) || old(self).spec_covers(
                        offset as int,
                        count as int,
                        off,
                    ),
                forall|off: u64|
                    old(self).spec_fetched().contains_key(off) && !old(self).spec_covers(
                        offset as int,
                        count as int,
                        off,
                    ) ==> #[trigger] self.spec_fetched().contains_key(off) && self.spec_fetched()[
                        off
                    ] == old(self).spec_fetched()[off],
                forall|off: u64| #[trigger]
                    self.spec_cached(off) ==> old(self).spec_cached(off) || old(self).spec_covers(
                        offset as int,
                        count as int,
                        off,
                    ),
                total <= old(self).spec_cache_count() ==> {
                    &&& m <= total
                    &&& self.cache_recency().len() == old(self).spec_cache_count()
                    &&& (forall|i: int|
                        0 <= i < m ==> (#[trigger] self.cache_recency()[
                            self.cache_recency().len() - m + i
                        ]).0 == Some((a0 + i * (chunk_size as int)) as u64))
                },
            decreases count - buffer_pos,
        {
            let p: u64 = offset + buffer_pos as u64;
            proof {
                lemma_align_bounds(p as int, chunk_size as int);
            }
            let aligned: u64 = (p / chunk_size as u64) * (chunk_size as u64);
            proof {
                assert(aligned == self.spec_chunk_of(p as int));
                if buffer_pos > 0 {
                    // the position sits on a chunk boundary, so its chunk
                    // base is the position itself
                    vstd::arithmetic::div_mod::lemma_fundamental_div_mod(
                        p as int,
                        chunk_size as int,
                    );
                    vstd::arithmetic::mul::lemma_mul_is_commutative(
                        (p as int) / (chunk_size as int),
                        chunk_size as int,
                    );
                    assert(aligned == p);
                }
            }
            let in_chunk: usize = (p - aligned) as usize;
            proof {
                // this iteration stages chunk number `m` of the span
                if buffer_pos == 0 {
                    assert(m * (chunk_size as int) == 0) by (nonlinear_arith)
                        requires
                            m == 0,
                    ;
                    assert(aligned as int == a0 + m * (chunk_size as int));
                } else {
                    assert(aligned as int == a0 + m * (chunk_size as int));
                }
                // and the span has room for it
                assert(m * (chunk_size as int) <= offset - a0 + count - 1);
                assert((m + 1) * (chunk_size as int) <= offset - a0 + count + (
                chunk_size as int) - 1) by (nonlinear_arith)
                    requires
                        m * (chunk_size as int) <= offset - a0 + count - 1,
                ;
                vstd::arithmetic::div_mod::lemma_div_multiples_vanish(
                    m + 1,
                    chunk_size as int,
                );
                vstd::arithmetic::mul::lemma_mul_is_commutative(m + 1, chunk_size as int);
                vstd::arithmetic::div_mod::lemma_div_is_ordered(
                    (chunk_size as int) * (m + 1),
                    offset - a0 + count + (chunk_size as int) - 1,
                    chunk_size as int,
                );
                assert(m + 1 <= total);
            }
            let ghost mid = *self;
            proof {
                if old(self).spec_span_cached(offset as int, count as int) {
                    // the chunk about to be staged is among the covered
                    // ones, so a fully cached span cannot miss
                    assert(old(self).spec_cached(old(self).spec_chunk_of(
                        offset + buffer_pos as int,
                    )));
                    assert(mid.spec_cached(aligned));
                }
            }
            match self.read_chunk(aligned) {
                Ok(()) => {},
                Err(e) => {
                    return Err(e);
                },
            }
            proof {
                // earlier bytes live in strictly earlier chunks, so the
                // fetch of this chunk left their model bytes unchanged
                assert forall|k: int|
                    0 <= k < buffer_pos implies self.spec_fetched().contains_key(
                    #[trigger] self.spec_chunk_of(offset + k),
                ) by {
                    lemma_align_bounds(offset + k, chunk_size as int);
                    let base = mid.spec_chunk_of(offset + k);
                    assert(mid.spec_fetched().contains_key(base));
                    assert(base <= offset + k < p);
                    assert(base != aligned);
                    assert(self.spec_fetched().remove(aligned) == mid.spec_fetched().remove(
                        aligned,
                    ));
                    assert(mid.spec_fetched().remove(aligned).contains_key(base));
                    assert(self.spec_chunk_of(offset + k) == base);
                }
                assert forall|k: int| 0 <= k < buffer_pos implies #[trigger] buffer@[k]
                    == self.spec_byte(offset + k) by {
                    lemma_align_bounds(offset + k, chunk_size as int);
                    let base = mid.spec_chunk_of(offset + k);
                    assert(mid.spec_fetched().contains_key(base));
                    assert(base <= offset + k < p);
                    assert(base != aligned);
                    assert(self.spec_fetched().remove(aligned) == mid.spec_fetched().remove(
                        aligned,
                    ));
                    assert(self.spec_fetched().remove(aligned).contains_key(base));
                    assert(self.spec_fetched()[base] == self.spec_fetched().remove(aligned)[base]);
                    assert(mid.spec_fetched()[base] == mid.spec_fetched().remove(aligned)[base]);
                    assert(buffer@[k] == mid.spec_byte(offset + k));
                }
                // the staged chunk is one of the covering chunks
                assert(old(self).spec_chunk_of(offset + buffer_pos as int) == aligned);
                assert(old(self).spec_covers(offset as int, count as int, aligned));
                // the fetched model and the cached set change only there
                assert forall|off: u64| #[trigger]
                    self.spec_fetched().contains_key(off) implies old(self).spec_fetched().contains_key(off) || old(self).spec_covers(
                    offset as int,
                    count as int,
                    off,
                ) by {
                    if off != aligned {
                        assert(self.spec_fetched().remove(aligned) == mid.spec_fetched().remove(
                            aligned,
                        ));
                        assert(mid.spec_fetched().remove(aligned).contains_key(off));
                        assert(mid.spec_fetched().contains_key(off));
                    }
                }
                assert forall|off: u64|
                    old(self).spec_fetched().contains_key(off) && !old(self).spec_covers(
                        offset as int,
                        count as int,
                        off,
                    ) implies #[trigger] self.spec_fetched().contains_key(off)
                    && self.spec_fetched()[off] == old(self).spec_fetched()[off] by {
                    assert(off != aligned);
                    assert(mid.spec_fetched().contains_key(off));
                    assert(mid.spec_fetched()[off] == old(self).spec_fetched()[off]);
                    assert(self.spec_fetched().remove(aligned) == mid.spec_fetched().remove(
                        aligned,
                    ));
                    assert(mid.spec_fetched().remove(aligned).contains_key(off));
                    assert(self.spec_fetched()[off] == self.spec_fetched().remove(aligned)[off]);
                    assert(mid.spec_fetched()[off] == mid.spec_fetched().remove(aligned)[off]);
                }
                assert forall|off: u64| #[trigger]
                    self.spec_cached(off) implies old(self).spec_cached(off) || old(self).spec_covers(offset as int, count as int, off) by {
                    if off != aligned {
                        assert(mid.spec_cached(off));
                    }
                }
                // under the capacity premise, the chunks this read has
                // already touched occupy the most recent slots in order,
                // so none of them is the one evicted
                if total <= old(self).spec_cache_count() {
                    let nm = mid.cache_recency().len();
                    let cs = chunk_size as int;
                    assert(self.cache_recency().len() == nm);
                    assert(0 <= m * cs <= a0 + m * cs) by (nonlinear_arith)
                        requires
                            0 <= m,
                            cs >= 1,
                            a0 >= 0,
                    ;
                    if mid.spec_cached(aligned) {
                        let jw = choose|j: int|
                            {
                                &&& 0 <= j < mid.cache_recency().len()
                                &&& (#[trigger] mid.cache_recency()[j]).0 == Some(aligned)
                                &&& self.cache_recency() == mid.cache_recency().remove(j).push(
                                    mid.cache_recency()[j],
                                )
                            };
                        assert(jw < nm - m) by {
                            if jw >= nm - m {
                                let i = jw - (nm - m);
                                assert(mid.cache_recency()[mid.cache_recency().len() - m + i].0
                                    == Some((a0 + i * cs) as u64));
                                assert(mid.cache_recency()[jw].0 == Some((a0 + i * cs) as u64));
                                assert(0 <= i * cs && i * cs <= m * cs) by (nonlinear_arith)
                                    requires
                                        0 <= i < m,
                                        cs >= 1,
                                ;
                                assert((a0 + i * cs) as u64 == aligned);
                                assert(a0 + i * cs == a0 + m * cs);
                                assert(false) by (nonlinear_arith)
                                    requires
                                        i * cs == m * cs,
                                        cs >= 1,
                                        i < m,
                                ;
                            }
                        }
                        assert forall|i: int| 0 <= i < m + 1 implies (#[trigger]
                        self.cache_recency()[self.cache_recency().len() - (m + 1) + i]).0 == Some(
                            (a0 + i * cs) as u64,
                        ) by {
                            if i < m {
                                assert(self.cache_recency()[nm - (m + 1) + i]
                                    == mid.cache_recency().remove(jw)[nm - (m + 1) + i]);
                                assert(mid.cache_recency().remove(jw)[nm - (m + 1) + i]
                                    == mid.cache_recency()[nm - m + i]);
                                assert(mid.cache_recency()[mid.cache_recency().len() - m + i].0
                                    == Some((a0 + i * cs) as u64));
                            } else {
                                assert(i * cs == m * cs);
                                assert(self.cache_recency()[nm - 1] == mid.cache_recency()[jw]);
                            }
                        }
                    } else {
                        assert forall|i: int| 0 <= i < m + 1 implies (#[trigger]
                        self.cache_recency()[self.cache_recency().len() - (m + 1) + i]).0 == Some(
                            (a0 + i * cs) as u64,
                        ) by {
                            if i < m {
                                assert(m + 1 <= total <= nm);
                                assert(self.cache_recency()[nm - (m + 1) + i]
                                    == mid.cache_recency().subrange(1, nm as int)[
                                    nm - (m + 1) + i
                                ]);
                                assert(self.cache_recency()[nm - (m + 1) + i]
                                    == mid.cache_recency()[nm - m + i]);
                                assert(mid.cache_recency()[mid.cache_recency().len() - m + i].0
                                    == Some((a0 + i * cs) as u64));
                            } else {
                                assert(i * cs == m * cs);
                                assert(self.cache_recency()[nm - 1].0 == Some(aligned));
                            }
                        }
                    }
                }
                                m = m + 1;
            }
            let mut to_copy = chunk_size - in_chunk;
            if to_copy > count - buffer_pos {
                to_copy = count - buffer_pos;
            }
            let ghost this_len = self.spec_chunk_len(aligned);
            proof {
                assert(in_chunk + to_copy <= this_len);
            }
            let ghost staged = *self;
            let mut t: usize = 0;
            while t < to_copy
                invariant
                    *self == staged,
                    t <= to_copy,
                    in_chunk + to_copy <= chunk_size,
                    buffer_pos + to_copy <= count,
                    count <= buffer.len(),
                    buffer.len() == old(buffer).len(),
                    chunk_size == self.chunk_buf@.len(),
                    forall|k: int| count <= k < buffer.len() ==> buffer@[k] == old(buffer)@[k],
                    forall|k: int|
                        0 <= k < t ==> #[trigger] buffer@[buffer_pos + k] == self.chunk_buf@[
                            in_chunk + k
                        ],
                    forall|k: int|
                        0 <= k < buffer_pos ==> #[trigger] buffer@[k] == self.spec_byte(offset + k),
                decreases to_copy - t,
            {
                let b = self.chunk_buf[in_chunk + t];
                buffer[buffer_pos + t] = b;
                t += 1;
            }
            proof {
                // the copied bytes are exactly the model bytes of this chunk
                assert forall|k: int|
                    0 <= k < to_copy implies #[trigger] buffer@[buffer_pos + k] == self.spec_byte(
                    p + k,
                ) && self.spec_chunk_of(p + k) == aligned by {
                    assert(self.spec_chunk_of(p + k) == aligned) by {
                        vstd::arithmetic::div_mod::lemma_fundamental_div_mod_converse_div(
                            p + k,
                            chunk_size as int,
                            (p as int) / (chunk_size as int),
                            p - aligned + k,
                        );
                        vstd::arithmetic::mul::lemma_mul_is_commutative(
                            (p as int) / (chunk_size as int),
                            chunk_size as int,
                        );
                    }
                    assert(in_chunk + k < this_len);
                    assert(self.spec_fetched()[aligned] == self.scratch().take(this_len as int));
                    assert(self.spec_fetched()[aligned][in_chunk + k] == self.chunk_buf@[
                        in_chunk + k
                    ]);
                }
            }
            let ghost old_pos = buffer_pos;
            buffer_pos += to_copy;
            proof {
                assert(m * (chunk_size as int) == (m - 1) * (chunk_size as int) + (
                chunk_size as int)) by (nonlinear_arith);
                if buffer_pos < count {
                    assert(to_copy == chunk_size - in_chunk);
                    assert(offset + buffer_pos == aligned + chunk_size);
                    assert((aligned + chunk_size as int) % (chunk_size as int) == 0) by {
                        vstd::arithmetic::div_mod::lemma_mod_add_multiples_vanish(
                            aligned as int,
                            chunk_size as int,
                        );
                    }
                }
                assert forall|k: int| 0 <= k < buffer_pos implies #[trigger] buffer@[k]
                    == self.spec_byte(offset + k) by {
                    if k >= old_pos {
                        assert(buffer@[old_pos + (k - old_pos)] == self.spec_byte(
                            p + (k - old_pos),
                        ));
                    }
                }
                assert forall|k: int|
                    0 <= k < buffer_pos implies self.spec_fetched().contains_key(
                    #[trigger] self.spec_chunk_of(offset + k),
                ) by {
                    if k >= old_pos {
                        assert(buffer@[old_pos + (k - old_pos)] == self.spec_byte(
                            p + (k - old_pos),
                        ));
                        assert(self.spec_chunk_of(p + (k - old_pos)) == aligned);
                        assert(self.spec_chunk_of(offset + k) == aligned);
                        assert(self.spec_fetched().contains_key(aligned));
                    }
                }
            }
        }
        proof {
            if old(self).spec_span_chunks(offset as int, count as int) <= old(self).spec_cache_count() {
                let cs = chunk_size as int;
                assert forall|k: int| 0 <= k < count implies self.spec_cached(
                    #[trigger] self.spec_chunk_of(offset + k),
                ) by {
                    lemma_align_bounds(offset + k, cs);
                    lemma_align_bounds(offset as int, cs);
                    crate::lemma_align_monotonic(offset as int, offset + k, cs);
                    let ci: int = spec_align(offset + k, cs);
                    assert(a0 <= ci);
                    assert(ci <= offset + k < offset + count);
                    assert(offset + count <= a0 + m * cs);
                    vstd::arithmetic::div_mod::lemma_fundamental_div_mod(ci, cs);
                    vstd::arithmetic::div_mod::lemma_fundamental_div_mod(a0, cs);
                    let i = ci / cs - a0 / cs;
                    assert(ci - a0 == cs * i) by (nonlinear_arith)
                        requires
                            ci == cs * (ci / cs) + ci % cs,
                            a0 == cs * (a0 / cs) + a0 % cs,
                            ci % cs == 0,
                            a0 % cs == 0,
                            i == ci / cs - a0 / cs,
                    ;
                    assert(0 <= i && i < m) by (nonlinear_arith)
                        requires
                            cs * i == ci - a0,
                            0 <= ci - a0,
                            ci - a0 < m * cs,
                            cs >= 1,
                    ;
                    assert(self.cache_recency()[self.cache_recency().len() - m + i].0 == Some(
                        (a0 + i * cs) as u64,
                    ));
                    assert((a0 + i * cs) as u64 == self.spec_chunk_of(offset + k));
                }
            }
        }
        Ok(())
    }

    /// Reads up to `buffer.len()` bytes starting at `offset`, without
    /// touching the stream position. The count read is `buffer.len()`
    /// clamped to the bytes remaining before end-of-stream: a short count
    /// always and only means the end was reached; any other shortfall is an
    /// error, never a short read. The bytes returned are exactly the
    /// stream's fetched-model bytes for that span, whether they came from
    /// the cache or from fresh fetches.
    pub fn read_at(&mut self, buffer: &mut Vec<u8>, offset: u64) -> (r: Result<usize, Error>)
        requires
            old(self).wf(),
            offset <= old(self).spec_size(),
        ensures
            final(self).wf(),
            final(self).spec_size() == old(self).spec_size(),
            final(self).spec_position() == old(self).spec_position(),
            final(self).spec_name() == old(self).spec_name(),
            final(self).chunk_size() == old(self).chunk_size(),
            final(buffer).len() == old(buffer).len(),
            r matches Ok(n) ==> {
                &&& n == if old(buffer)@.len() <= old(self).spec_size() - offset {
                    old(buffer)@.len() as int
                } else {
                    old(self).spec_size() - offset
                }
                &&& forall|k: int|
                    0 <= k < n ==> final(buffer)@[k] == final(self).spec_byte(offset + k)
                &&& forall|k: int| n <= k < old(buffer).len() ==> final(buffer)@[k] == old(buffer)@[k]
            },
            old(self).spec_span_cached(
                offset as int,
                if old(buffer)@.len() <= old(self).spec_size() - offset {
                    old(buffer)@.len() as int
                } else {
                    old(self).spec_size() - offset
                },
            ) ==> {
                &&& r is Ok
                &&& final(self).spec_fetched() == old(self).spec_fetched()
                &&& (forall|off: u64|
                    final(self).spec_cached(off) <==> old(self).spec_cached(off))
            },
            forall|off: u64| #[trigger]
                final(self).spec_fetched().contains_key(off) ==> old(self).spec_fetched().contains_key(off) || old(self).spec_covers(
                offset as int,
                old(self).spec_read_count(old(buffer)@.len() as int, offset),
                off,
            ),
            forall|off: u64|
                old(self).spec_fetched().contains_key(off) && !old(self).spec_covers(
                    offset as int,
                    old(self).spec_read_count(old(buffer)@.len() as int, offset),
                    off,
                ) ==> #[trigger] final(self).spec_fetched().contains_key(off) && final(self).spec_fetched()[off] == old(self).spec_fetched()[off],
            forall|off: u64| #[trigger]
                final(self).spec_cached(off) ==> old(self).spec_cached(off) || old(self).spec_covers(
                offset as int,
                old(self).spec_read_count(old(buffer)@.len() as int, offset),
                off,
            ),
            r is Ok && old(self).spec_span_chunks(
                offset as int,
                old(self).spec_read_count(old(buffer)@.len() as int, offset),
            ) <= old(self).spec_cache_count() ==> forall|k: int|
                0 <= k < old(self).spec_read_count(old(buffer)@.len() as int, offset)
                    ==> final(self).spec_cached(#[trigger] final(self).spec_chunk_of(offset + k)),
    {
        // one fresh deadline budget per logical read, shared by every
        // fetch and reconnect the read needs
        self.exchange.begin();
        proof {
            assert(self.cache == old(self).cache);
            assert(self.fetched == old(self).fetched);
            assert(self.chunk_buf == old(self).chunk_buf);
            assert(forall|off: u64| self.spec_cached(off) == old(self).spec_cached(off));
            let n0: int = if old(buffer)@.len() <= old(self).spec_size() - offset {
                old(buffer)@.len() as int
            } else {
                old(self).spec_size() - offset
            };
            if old(self).spec_span_cached(offset as int, n0) {
                assert forall|k: int| 0 <= k < n0 implies self.spec_cached(
                    #[trigger] self.spec_chunk_of(offset + k),
                ) by {
                    assert(self.spec_chunk_of(offset + k) == old(self).spec_chunk_of(offset + k));
                    assert(old(self).spec_cached(old(self).spec_chunk_of(offset + k)));
                }
                assert(self.spec_span_cached(offset as int, n0));
            }
            // only the exchange changed with the budget reset: every
            // chunk-arithmetic fact bridges across it
            assert forall|k: int| true implies #[trigger] self.spec_chunk_of(offset + k) == old(self).spec_chunk_of(offset + k) by {}
            assert forall|off: u64| #[trigger]
                self.spec_covers(offset as int, n0, off) implies old(self).spec_covers(
                offset as int,
                n0,
                off,
            ) by {
                let k = choose|k: int|
                    0 <= k < n0 && off == #[trigger] self.spec_chunk_of(offset + k);
                assert(off == old(self).spec_chunk_of(offset + k));
            }
            assert forall|off: u64| #[trigger]
                old(self).spec_covers(offset as int, n0, off) implies self.spec_covers(
                offset as int,
                n0,
                off,
            ) by {
                let k = choose|k: int|
                    0 <= k < n0 && off == #[trigger] old(self).spec_chunk_of(offset + k);
                assert(off == self.spec_chunk_of(offset + k));
            }
            assert(self.spec_span_chunks(offset as int, n0) == old(self).spec_span_chunks(
                offset as int,
                n0,
            ));
            assert(self.spec_cache_count() == old(self).spec_cache_count());
            assert(n0 == old(self).spec_read_count(old(buffer)@.len() as int, offset));
        }
        let rem: u64 = self.size - offset;
        let to_read: usize = if (buffer.len() as u64) < rem {
            buffer.len()
        } else {
            rem as usize
        };
        match self.read_range(buffer, to_read, offset) {
            Ok(()) => Ok(to_read),
            Err(e) => Err(e),
        }
    }

    /// Reads up to `buffer.len()` bytes at the stream position and advances
    /// the position by the count actually read. A short count always and
    /// only means end-of-stream.
    pub fn read(&mut self, buffer: &mut Vec<u8>) -> (r: Result<usize, Error>)
        requires
            old(self).wf(),
        ensures
            final(self).wf(),
            final(self).spec_size() == old(self).spec_size(),
            final(self).spec_name() == old(self).spec_name(),
            final(self).chunk_size() == old(self).chunk_size(),
            final(buffer).len() == old(buffer).len(),
            r matches Ok(n) ==> {
                &&& n == if old(buffer)@.len() <= old(self).spec_size() - old(self).spec_position() {
                    old(buffer)@.len() as int
                } else {
                    old(self).spec_size() - old(self).spec_position()
                }
                &&& final(self).spec_position() == old(self).spec_position() + n
                &&& forall|k: int|
                    0 <= k < n ==> final(buffer)@[k] == final(self).spec_byte(
                        old(self).spec_position() + k,
                    )
            },
            r is Err ==> final(self).spec_position() == old(self).spec_position(),
            forall|off: u64| #[trigger]
                final(self).spec_fetched().contains_key(off) ==> old(self).spec_fetched().contains_key(off) || old(self).spec_covers(
                    old(self).spec_position() as int,
                    old(self).spec_read_count(old(buffer)@.len() as int, old(self).spec_position()),
                    off,
                ),
            forall|off: u64| #[trigger]
                final(self).spec_cached(off) ==> old(self).spec_cached(off) || old(self).spec_covers(
                    old(self).spec_position() as int,
                    old(self).spec_read_count(old(buffer)@.len() as int, old(self).spec_position()),
                    off,
                ),
    {
        let position = self.position;
        match self.read_at(buffer, position) {
            Ok(n) => {
                let ghost after = *self;
                self.position = self.position + (n as u64);
                proof {
                    assert(self.spec_fetched() == after.spec_fetched());
                    assert(forall|off: u64|
                        #[trigger] self.spec_cached(off) == after.spec_cached(off));
                }
                Ok(n)
            },
            Err(e) => Err(e),
        }
    }
}

} // verus!
