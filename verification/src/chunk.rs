//! Splitting an encoded message into numbered chunks, and putting the
//! chunks back together on the receiving side.
//!
//! A message is cut into parts of at most `chunk_size` bytes. Every part
//! carries the message id, its index, the number of parts and a deadline;
//! the receiver keeps the parts of each unfinished message until all of
//! them are there, then hands the concatenation back in part order.
//! Parts whose deadline has passed are dropped.
use std::collections::HashMap;
use vstd::prelude::*;
use vstd::std_specs::iter::IteratorSpec;

verus! {

broadcast use vstd::std_specs::hash::group_hash_axioms;

/// One part of a chunked message.
pub struct Chunk {
    pub data: Vec<u8>,
    pub id: u32,
    pub part: u32,
    pub total: u32,
    /// Nanoseconds since the Unix epoch after which the part is useless.
    pub deadline: u64,
}

/// The mathematical value of a [`Chunk`].
pub struct ChunkView {
    pub data: Seq<u8>,
    pub id: u32,
    pub part: u32,
    pub total: u32,
    pub deadline: u64,
}

impl View for Chunk {
    type V = ChunkView;

    open spec fn view(&self) -> ChunkView {
        ChunkView {
            data: self.data@,
            id: self.id,
            part: self.part,
            total: self.total,
            deadline: self.deadline,
        }
    }
}

/// Two chunks are the same part of the same message when id, index and
/// count agree; the payload does not take part in the comparison.
pub open spec fn same_slot(a: ChunkView, b: ChunkView) -> bool {
    a.id == b.id && a.part == b.part && a.total == b.total
}

impl PartialEq for Chunk {
    fn eq(&self, other: &Self) -> (r: bool) {
        self.id == other.id && self.part == other.part && self.total == other.total
    }
}

impl vstd::std_specs::cmp::PartialEqSpecImpl for Chunk {
    open spec fn obeys_eq_spec() -> bool {
        true
    }

    open spec fn eq_spec(&self, other: &Self) -> bool {
        same_slot(self@, other@)
    }
}

impl Eq for Chunk {

}

pub open spec fn chunks_view(s: Seq<Chunk>) -> Seq<ChunkView> {
    s.map_values(|c: Chunk| c@)
}

// ---------------------------------------------------------------------------
// Splitting
// ---------------------------------------------------------------------------

/// Number of chunks of at most `size` bytes needed to carry `len` bytes.
pub open spec fn spec_chunk_count(len: nat, size: nat) -> nat
    recommends
        size > 0,
{
    len / size + (if len % size == 0 { 0nat } else { 1nat })
}

/// End (exclusive) of part `i` of a message of `len` bytes.
pub open spec fn part_end(len: nat, size: nat, i: int) -> int {
    if (i + 1) * size <= len {
        (i + 1) * size
    } else {
        len as int
    }
}

/// Part `i` of `encoded` when it is cut into pieces of `size` bytes.
pub open spec fn spec_chunk_at(encoded: Seq<u8>, size: nat, id: u32, deadline: u64, i: int) -> ChunkView {
    ChunkView {
        data: encoded.subrange(i * size, part_end(encoded.len(), size, i)),
        id: id,
        part: i as u32,
        total: spec_chunk_count(encoded.len(), size) as u32,
        deadline: deadline,
    }
}

/// All parts of `encoded`, in order.
pub open spec fn spec_chunks(encoded: Seq<u8>, size: nat, id: u32, deadline: u64) -> Seq<ChunkView> {
    Seq::new(
        spec_chunk_count(encoded.len(), size),
        |i: int| spec_chunk_at(encoded, size, id, deadline, i),
    )
}

proof fn lemma_div_mod_parts(len: nat, size: nat)
    requires
        size > 0,
    ensures
        len == size * (len / size) + len % size,
        len % size < size,
{
    vstd::arithmetic::div_mod::lemma_fundamental_div_mod(len as int, size as int);
}

/// A part index below the chunk count starts inside the message.
proof fn lemma_part_start(len: nat, size: nat, i: nat)
    requires
        size > 0,
        i < spec_chunk_count(len, size),
    ensures
        i * size < len,
        i * size < part_end(len, size, i as int),
        part_end(len, size, i as int) <= len,
{
    lemma_div_mod_parts(len, size);
    let q = len / size;
    let r = len % size;
    if r == 0 {
        assert(i + 1 <= q);
        assert((i + 1) * size <= q * size) by (nonlinear_arith)
            requires
                i + 1 <= q,
        ;
        assert((i + 1) * size == i * size + size) by (nonlinear_arith);
        assert(q * size == size * q) by (nonlinear_arith);
    } else {
        assert(i <= q);
        assert(i * size <= q * size) by (nonlinear_arith)
            requires
                i <= q,
        ;
        assert(q * size == size * q) by (nonlinear_arith);
    }
    assert((i + 1) * size == i * size + size) by (nonlinear_arith);
}

/// The chunk count covers the whole message.
proof fn lemma_count_covers(len: nat, size: nat)
    requires
        size > 0,
    ensures
        spec_chunk_count(len, size) * size >= len,
        spec_chunk_count(len, size) > 0 ==> (spec_chunk_count(len, size) - 1) * size < len,
        len > 0 ==> spec_chunk_count(len, size) > 0,
{
    lemma_div_mod_parts(len, size);
    let q = len / size;
    let n = spec_chunk_count(len, size);
    assert(q * size == size * q) by (nonlinear_arith);
    if len % size != 0 {
        assert(n * size == q * size + size) by (nonlinear_arith)
            requires
                n == q + 1,
        ;
    }
    if n > 0 {
        lemma_part_start(len, size, (n - 1) as nat);
    }
    if len > 0 && len % size == 0 {
        if q == 0 {
            assert(size * q == 0) by (nonlinear_arith)
                requires
                    q == 0,
            ;
        }
    }
}

/// How many chunks of at most `chunk_size` bytes an encoded message of
/// `len` bytes is split into.
pub fn chunk_count(len: usize, chunk_size: usize) -> (n: usize)
    requires
        chunk_size > 0,
    ensures
        n == spec_chunk_count(len as nat, chunk_size as nat),
{
    if len % chunk_size == 0 {
        len / chunk_size
    } else {
        assert(len / chunk_size < len) by (nonlinear_arith)
            requires
                chunk_size > 0,
                len % chunk_size != 0,
        {
            if chunk_size == 1 {
                assert(len % chunk_size == 0);
            }
        }
        len / chunk_size + 1
    }
}

/// Copies `src[from..to]` into a new vector.
fn copy_range(src: &[u8], from: usize, to: usize) -> (out: Vec<u8>)
    requires
        from <= to <= src@.len(),
    ensures
        out@ == src@.subrange(from as int, to as int),
{
    let mut out: Vec<u8> = Vec::new();
    let mut k: usize = from;
    while k < to
        invariant
            from <= k <= to <= src@.len(),
            out@ == src@.subrange(from as int, k as int),
        decreases to - k,
    {
        out.push(src[k]);
        k = k + 1;
    }
    out
}

/// Builds part `i` of `encoded`.
fn chunk_at(encoded: &[u8], size: usize, id: u32, deadline: u64, i: usize, total: usize) -> (c: Chunk)
    requires
        size > 0,
        total == spec_chunk_count(encoded@.len(), size as nat),
        i < total,
    ensures
        c@ == spec_chunk_at(encoded@, size as nat, id, deadline, i as int),
{
    proof {
        lemma_part_start(encoded@.len(), size as nat, i as nat);
    }
    let len = encoded.len();
    assert(i * size < len);
    let start: usize = i * size;
    let end: usize = if len - start <= size {
        len
    } else {
        start + size
    };
    assert(end == part_end(len as nat, size as nat, i as int)) by {
        assert((i + 1) * size == i * size + size) by (nonlinear_arith);
    }
    let data = copy_range(encoded, start, end);
    Chunk {
        data,
        id,
        part: i as u32,
        total: total as u32,
        deadline,
    }
}

/// Cuts `encoded` into all of its parts, in order.
pub fn split_into_chunks(encoded: &[u8], chunk_size: usize, id: u32, deadline: u64) -> (chunks: Vec<Chunk>)
    requires
        chunk_size > 0,
    ensures
        chunks_view(chunks@) == spec_chunks(encoded@, chunk_size as nat, id, deadline),
{
    let total = chunk_count(encoded.len(), chunk_size);
    let mut chunks: Vec<Chunk> = Vec::new();
    let mut i: usize = 0;
    while i < total
        invariant
            chunk_size > 0,
            total == spec_chunk_count(encoded@.len(), chunk_size as nat),
            i <= total,
            chunks@.len() == i,
            chunks_view(chunks@) == spec_chunks(encoded@, chunk_size as nat, id, deadline).take(
                i as int,
            ),
        decreases total - i,
    {
        let c = chunk_at(encoded, chunk_size, id, deadline, i, total);
        chunks.push(c);
        i = i + 1;
        assert(chunks_view(chunks@) =~= spec_chunks(encoded@, chunk_size as nat, id, deadline).take(
            i as int,
        ));
    }
    assert(spec_chunks(encoded@, chunk_size as nat, id, deadline).take(total as int)
        =~= spec_chunks(encoded@, chunk_size as nat, id, deadline));
    chunks
}

/// Time since the Unix epoch by the system clock, in nanoseconds, or
/// `None` for a clock set before the epoch: calls `SystemTime::elapsed`
/// on `UNIX_EPOCH` and takes the nanoseconds of the duration. Nothing is
/// stated of the result: it is whatever the clock reads.
#[verifier::external_body]
fn epoch_elapsed_nanos() -> (t: Option<u128>) {
    match std::time::UNIX_EPOCH.elapsed() {
        Ok(d) => Some(d.as_nanos()),
        Err(_) => None,
    }
}

/// The system clock as nanoseconds since the Unix epoch: zero for a
/// clock set before the epoch, and the largest `u64` past the year 2554.
pub(crate) fn now_nanos() -> (t: u64) {
    match epoch_elapsed_nanos() {
        Some(n) => if n > 0xffff_ffff_ffff_ffffu128 {
            0xffff_ffff_ffff_ffffu64
        } else {
            n as u64
        },
        None => 0,
    }
}

/// Part `i` of `encoded` cut into pieces of `size` bytes, as sent at clock
/// reading `now`: nothing once the deadline is not after `now`.
pub fn next_part(encoded: &[u8], size: usize, id: u32, deadline: u64, i: usize, now: u64) -> (c:
    Option<Chunk>)
    requires
        size > 0,
        i < spec_chunk_count(encoded@.len(), size as nat),
    ensures
        (c is None) == (deadline <= now),
        c matches Some(x) ==> x@ == spec_chunk_at(encoded@, size as nat, id, deadline, i as int),
{
    if deadline <= now {
        None
    } else {
        let total = chunk_count(encoded.len(), size);
        Some(chunk_at(encoded, size, id, deadline, i, total))
    }
}

/// The sending half: numbers messages and cuts them into parts.
pub struct Chunker {
    pub chunk_size: usize,
    pub next_chunk_id: u32,
}

impl Chunker {
    pub fn new(chunk_size: usize) -> (c: Chunker)
        ensures
            c.chunk_size == chunk_size,
            c.next_chunk_id == 0,
    {
        Chunker { chunk_size, next_chunk_id: 0 }
    }

    /// Gives the message the next id and cuts it into parts, reading the
    /// clock before each part and stopping at the first reading that shows
    /// the deadline passed (see [`next_part`]): the parts handed back are
    /// always the first parts of the message, in order, and with a deadline
    /// of zero there are none.
    pub fn chunk(&mut self, encoded: &[u8], deadline: u64) -> (chunks: Vec<Chunk>)
        requires
            old(self).chunk_size > 0,
            old(self).next_chunk_id < u32::MAX,
        ensures
            final(self).chunk_size == old(self).chunk_size,
            final(self).next_chunk_id == old(self).next_chunk_id + 1,
            chunks@.len() <= spec_chunk_count(encoded@.len(), old(self).chunk_size as nat),
            chunks_view(chunks@) == spec_chunks(
                encoded@,
                old(self).chunk_size as nat,
                old(self).next_chunk_id,
                deadline,
            ).take(chunks@.len() as int),
            deadline == 0 ==> chunks@.len() == 0,
    {
        let id = self.next_chunk_id;
        self.next_chunk_id = self.next_chunk_id + 1;
        let size = self.chunk_size;
        let total = chunk_count(encoded.len(), size);
        let mut chunks: Vec<Chunk> = Vec::new();
        let mut i: usize = 0;
        while i < total
            invariant
                size > 0,
                total == spec_chunk_count(encoded@.len(), size as nat),
                i <= total,
                chunks@.len() == i,
                chunks_view(chunks@) == spec_chunks(encoded@, size as nat, id, deadline).take(
                    i as int,
                ),
                deadline == 0 ==> i == 0,
            decreases total - i,
        {
            let c = match next_part(encoded, size, id, deadline, i, now_nanos()) {
                Some(c) => c,
                None => {
                    break ;
                },
            };
            chunks.push(c);
            i = i + 1;
            assert(chunks_view(chunks@) =~= spec_chunks(encoded@, size as nat, id, deadline).take(
                i as int,
            ));
        }
        chunks
    }
}

// ---------------------------------------------------------------------------
// Reassembly
// ---------------------------------------------------------------------------

/// Whether `s` already holds the same part as `c`.
pub open spec fn has_slot(s: Seq<ChunkView>, c: ChunkView) -> bool {
    exists|i: int| 0 <= i < s.len() && same_slot(#[trigger] s[i], c)
}

/// Inserts `c` before the first element with a larger part index.
pub open spec fn insert_by_part(s: Seq<ChunkView>, c: ChunkView) -> Seq<ChunkView>
    decreases s.len(),
{
    if s.len() == 0 {
        seq![c]
    } else if c.part < s[0].part {
        seq![c] + s
    } else {
        seq![s[0]] + insert_by_part(s.drop_first(), c)
    }
}

/// Stable sort by part index (insertion sort in arrival order).
pub open spec fn sort_by_part(s: Seq<ChunkView>) -> Seq<ChunkView>
    decreases s.len(),
{
    if s.len() == 0 {
        s
    } else {
        insert_by_part(sort_by_part(s.drop_last()), s.last())
    }
}

/// The payloads of `s`, one after the other.
pub open spec fn concat_data(s: Seq<ChunkView>) -> Seq<u8>
    decreases s.len(),
{
    if s.len() == 0 {
        Seq::empty()
    } else {
        concat_data(s.drop_last()) + s.last().data
    }
}

/// A part is useless once its deadline is not after `now`.
pub open spec fn is_expired(c: ChunkView, now: u64) -> bool {
    c.deadline <= now
}

/// What receiving one chunk at time `now` does to the pending parts, and
/// the whole message it completes, if any.
pub open spec fn assembly_step(m: Map<u32, Seq<ChunkView>>, c: ChunkView, now: u64) -> (
    Map<u32, Seq<ChunkView>>,
    Option<Seq<u8>>,
) {
    if is_expired(c, now) {
        (m, None)
    } else if m.contains_key(c.id) {
        let g = if has_slot(m[c.id], c) {
            m[c.id]
        } else {
            m[c.id].push(c)
        };
        if g.len() == c.total {
            (m.remove(c.id), Some(concat_data(sort_by_part(g))))
        } else {
            (m.insert(c.id, g), None)
        }
    } else if c.total == 1 {
        (m, Some(c.data))
    } else {
        (m.insert(c.id, seq![c]), None)
    }
}

/// Whether some part of the group has expired.
pub open spec fn group_expired(g: Seq<ChunkView>, now: u64) -> bool {
    exists|i: int| 0 <= i < g.len() && is_expired(#[trigger] g[i], now)
}

/// The pending parts left after dropping every message one of whose
/// parts has expired.
pub open spec fn expire_step(m: Map<u32, Seq<ChunkView>>, now: u64) -> Map<u32, Seq<ChunkView>> {
    Map::new(|k: u32| m.contains_key(k) && !group_expired(m[k], now), |k: u32| m[k])
}

/// The shape every set of pending parts keeps: each message's parts are
/// nonempty, carry its id and hold no part twice.
pub open spec fn pending_wf(m: Map<u32, Seq<ChunkView>>) -> bool {
    &&& m.dom().finite()
    &&& forall|k: u32|
        #![trigger m[k]]
        m.contains_key(k) ==> {
            &&& m[k].len() > 0
            &&& forall|i: int| 0 <= i < m[k].len() ==> (#[trigger] m[k][i]).id == k
            &&& forall|i: int, j: int|
                0 <= i < j < m[k].len() ==> !same_slot(#[trigger] m[k][i], #[trigger] m[k][j])
        }
}

pub open spec fn opt_bytes_view(o: Option<Vec<u8>>) -> Option<Seq<u8>> {
    match o {
        Some(v) => Some(v@),
        None => None,
    }
}

/// The receiving half: pending parts of unfinished messages, by id.
pub struct Assembly {
    groups: HashMap<u32, Vec<Chunk>>,
}

impl View for Assembly {
    type V = Map<u32, Seq<ChunkView>>;

    closed spec fn view(&self) -> Map<u32, Seq<ChunkView>> {
        groups_view(self.groups)
    }
}

/// The pending parts held in `g`, as values.
spec fn groups_view(g: HashMap<u32, Vec<Chunk>>) -> Map<u32, Seq<ChunkView>> {
    Map::new(|k: u32| g@.contains_key(k), |k: u32| chunks_view(g@[k]@))
}

proof fn lemma_insert_by_part_index(s: Seq<ChunkView>, c: ChunkView, pos: int)
    requires
        0 <= pos <= s.len(),
        forall|j: int| 0 <= j < pos ==> (#[trigger] s[j]).part <= c.part,
        pos == s.len() || c.part < s[pos].part,
    ensures
        insert_by_part(s, c) == s.insert(pos, c),
    decreases s.len(),
{
    if s.len() == 0 {
        assert(s.insert(pos, c) =~= seq![c]);
    } else if pos == 0 {
        assert(s.insert(pos, c) =~= seq![c] + s);
    } else {
        let t = s.drop_first();
        assert forall|j: int| 0 <= j < pos - 1 implies (#[trigger] t[j]).part <= c.part by {
            assert(t[j] == s[j + 1]);
        }
        lemma_insert_by_part_index(t, c, pos - 1);
        assert(s.insert(pos, c) =~= seq![s[0]] + t.insert(pos - 1, c));
    }
}

proof fn lemma_map_values_insert(s: Seq<Chunk>, i: int, c: Chunk)
    requires
        0 <= i <= s.len(),
    ensures
        chunks_view(s.insert(i, c)) == chunks_view(s).insert(i, c@),
{
    assert(chunks_view(s.insert(i, c)) =~= chunks_view(s).insert(i, c@));
}

impl Assembly {
    /// Every message's pending parts are nonempty, carry its id and hold no
    /// part twice.
    #[verifier::type_invariant]
    spec fn inv(&self) -> bool {
        pending_wf(self@)
    }

    pub fn new() -> (a: Assembly)
        ensures
            a@ == Map::<u32, Seq<ChunkView>>::empty(),
    {
        let groups: HashMap<u32, Vec<Chunk>> = HashMap::new();
        proof {
            assert(groups_view(groups) =~= Map::<u32, Seq<ChunkView>>::empty());
        }
        Assembly { groups }
    }

    /// Ids of the messages with parts pending.
    pub fn pending_ids(&self) -> (ids: Vec<u32>)
        ensures
            ids@.to_set() == self@.dom(),
            ids@.no_duplicates(),
    {
        keys_of(&self.groups)
    }

    /// Whether `g` already holds the same part as `c`.
    fn holds_slot(g: &Vec<Chunk>, c: &Chunk) -> (r: bool)
        ensures
            r == has_slot(chunks_view(g@), c@),
    {
        let mut i: usize = 0;
        while i < g.len()
            invariant
                i <= g@.len(),
                forall|j: int| 0 <= j < i ==> !same_slot(#[trigger] chunks_view(g@)[j], c@),
            decreases g.len() - i,
        {
            if g[i].id == c.id && g[i].part == c.part && g[i].total == c.total {
                assert(same_slot(chunks_view(g@)[i as int], c@));
                return true;
            }
            i = i + 1;
        }
        false
    }

    /// Puts the parts in part order (stable) and concatenates their payloads.
    fn assemble(group: Vec<Chunk>) -> (data: Vec<u8>)
        ensures
            data@ == concat_data(sort_by_part(chunks_view(group@))),
    {
        let ghost orig = chunks_view(group@);
        let n = group.len();
        let mut rest = group;
        let mut sorted: Vec<Chunk> = Vec::new();
        let mut k: usize = 0;
        while rest.len() > 0
            invariant
                k <= orig.len(),
                orig.len() == n,
                rest@.len() + k == orig.len(),
                chunks_view(rest@) == orig.skip(k as int),
                chunks_view(sorted@) == sort_by_part(orig.take(k as int)),
            decreases rest.len(),
        {
            let ghost before = rest@;
            let c = rest.remove(0);
            proof {
                assert(chunks_view(before)[0] == orig.skip(k as int)[0]);
                assert(c@ == orig[k as int]);
                assert(chunks_view(rest@) =~= orig.skip(k + 1)) by {
                    assert forall|j: int| 0 <= j < rest@.len() implies chunks_view(rest@)[j] == orig.skip(k + 1)[j] by {
                        assert(chunks_view(before)[j + 1] == orig.skip(k as int)[j + 1]);
                    }
                }
            }
            let mut pos: usize = 0;
            while pos < sorted.len() && sorted[pos].part <= c.part
                invariant
                    pos <= sorted@.len(),
                    forall|j: int| 0 <= j < pos ==> (#[trigger] chunks_view(sorted@)[j]).part <= c.part,
                decreases sorted.len() - pos,
            {
                pos = pos + 1;
            }
            proof {
                lemma_insert_by_part_index(chunks_view(sorted@), c@, pos as int);
                lemma_map_values_insert(sorted@, pos as int, c);
                assert(orig.take(k + 1).drop_last() =~= orig.take(k as int));
            }
            sorted.insert(pos, c);
            k = k + 1;
        }
        proof {
            assert(orig.take(k as int) =~= orig);
        }
        let mut data: Vec<u8> = Vec::new();
        let mut i: usize = 0;
        while i < sorted.len()
            invariant
                i <= sorted@.len(),
                data@ == concat_data(chunks_view(sorted@).take(i as int)),
            decreases sorted.len() - i,
        {
            let ghost before = data@;
            let mut j: usize = 0;
            while j < sorted[i].data.len()
                invariant
                    i < sorted@.len(),
                    j <= sorted@[i as int].data@.len(),
                    data@ == before + sorted@[i as int].data@.take(j as int),
                decreases sorted@[i as int].data@.len() - j,
            {
                data.push(sorted[i].data[j]);
                j = j + 1;
                assert(data@ =~= before + sorted@[i as int].data@.take(j as int));
            }
            proof {
                let s = chunks_view(sorted@);
                assert(s.take(i + 1).drop_last() =~= s.take(i as int));
                assert(sorted@[i as int].data@.take(j as int) =~= sorted@[i as int].data@);
            }
            i = i + 1;
        }
        proof {
            assert(chunks_view(sorted@).take(i as int) =~= chunks_view(sorted@));
        }
        data
    }

    /// Takes one received chunk at time `now` (nanoseconds since the Unix
    /// epoch). Returns the whole message when this chunk completes it.
    pub fn handle_chunk(&mut self, chunk: Chunk, now: u64) -> (whole: Option<Vec<u8>>)
        ensures
            (final(self)@, opt_bytes_view(whole)) == assembly_step(old(self)@, chunk@, now),
    {
        proof {
            use_type_invariant(&*self);
        }
        let mut groups: HashMap<u32, Vec<Chunk>> = HashMap::new();
        proof {
            assert(groups_view(groups) =~= Map::<u32, Seq<ChunkView>>::empty());
        }
        std::mem::swap(&mut groups, &mut self.groups);
        let whole = handle_chunk_in(&mut groups, chunk, now);
        self.groups = groups;
        whole
    }

    /// Whether some pending part of message `id` has expired at `now`.
    fn group_has_expired(g: &Vec<Chunk>, now: u64) -> (r: bool)
        ensures
            r == group_expired(chunks_view(g@), now),
    {
        let mut i: usize = 0;
        while i < g.len()
            invariant
                i <= g@.len(),
                forall|j: int| 0 <= j < i ==> !is_expired(#[trigger] chunks_view(g@)[j], now),
            decreases g.len() - i,
        {
            if g[i].deadline <= now {
                assert(is_expired(chunks_view(g@)[i as int], now));
                return true;
            }
            i = i + 1;
        }
        false
    }

    /// Drops every unfinished message one of whose parts has expired at
    /// `now`.
    pub fn remove_elapsed_chunks(&mut self, now: u64)
        ensures
            final(self)@ == expire_step(old(self)@, now),
    {
        proof {
            use_type_invariant(&*self);
        }
        let mut groups: HashMap<u32, Vec<Chunk>> = HashMap::new();
        proof {
            assert(groups_view(groups) =~= Map::<u32, Seq<ChunkView>>::empty());
        }
        std::mem::swap(&mut groups, &mut self.groups);
        remove_elapsed_in(&mut groups, now);
        self.groups = groups;
    }

    /// Takes one received chunk, judging its deadline by the system clock.
    pub fn receive(&mut self, chunk: Chunk) -> (whole: Option<Vec<u8>>)
        ensures
            exists|now: u64|
                (final(self)@, opt_bytes_view(whole)) == assembly_step(
                    old(self)@,
                    chunk@,
                    now,
                ),
    {
        let now = now_nanos();
        self.handle_chunk(chunk, now)
    }

    /// Drops expired unfinished messages, judging by the system clock.
    pub fn expire(&mut self)
        ensures
            exists|now: u64| final(self)@ == expire_step(old(self)@, now),
    {
        let now = now_nanos();
        self.remove_elapsed_chunks(now);
    }
}

/// The ids that `groups` holds parts for.
fn keys_of(groups: &HashMap<u32, Vec<Chunk>>) -> (ids: Vec<u32>)
    ensures
        ids@.to_set() == groups_view(*groups).dom(),
        ids@.no_duplicates(),
{
    let mut ids: Vec<u32> = Vec::new();
    let ghost keys = vstd::std_specs::hash::spec_keys_iter(groups).remaining();
    for k in it: groups.keys()
        invariant
            it.seq() == keys,
            ids@.len() == it.index(),
            forall|j: int| 0 <= j < it.index() ==> ids@[j] == *keys[j],
    {
        ids.push(*k);
    }
    proof {
        assert(ids@ =~= keys.unref());
        assert(groups_view(*groups).dom() =~= groups@.dom());
        assert forall|a: int, b: int| 0 <= a < b < ids@.len() implies ids@[a] != ids@[b] by {
            assert(keys[a] != keys[b]);
        }
    }
    ids
}

/// Takes one received chunk at time `now` (nanoseconds since the Unix
/// epoch). Returns the whole message when this chunk completes it.
fn handle_chunk_in(groups: &mut HashMap<u32, Vec<Chunk>>, chunk: Chunk, now: u64) -> (whole: Option<Vec<u8>>)
    requires
        pending_wf(groups_view(*old(groups))),
    ensures
        pending_wf(groups_view(*final(groups))),
        (groups_view(*final(groups)), opt_bytes_view(whole)) == assembly_step(groups_view(*old(groups)), chunk@, now),
{
    if chunk.deadline <= now {
        return None;
    }
    let ghost m = groups_view(*groups);
    let id = chunk.id;
    let total = chunk.total;
    match groups.remove(&id) {
        Some(mut group) => {
            assert(m.contains_key(id));
            assert(chunks_view(group@) == m[id]);
            if !Assembly::holds_slot(&group, &chunk) {
                group.push(chunk);
                assert(chunks_view(group@) =~= m[id].push(chunk@));
            }
            if group.len() == total as usize {
                assert(groups_view(*groups) =~= m.remove(id));
                let data = Assembly::assemble(group);
                Some(data)
            } else {
                groups.insert(id, group);
                assert(groups_view(*groups) =~= m.insert(id, chunks_view(group@)));
                None
            }
        },
        None => {
            assert(!m.contains_key(id));
            if total == 1 {
                assert(groups_view(*groups) =~= m);
                Some(chunk.data)
            } else {
                let mut group: Vec<Chunk> = Vec::new();
                group.push(chunk);
                groups.insert(id, group);
                assert(chunks_view(group@) =~= seq![chunk@]);
                assert(groups_view(*groups) =~= m.insert(id, seq![chunk@]));
                None
            }
        },
    }
}


/// Drops every unfinished message one of whose parts has expired at
/// `now`.
fn remove_elapsed_in(groups: &mut HashMap<u32, Vec<Chunk>>, now: u64)
    requires
        pending_wf(groups_view(*old(groups))),
    ensures
        pending_wf(groups_view(*final(groups))),
        groups_view(*final(groups)) == expire_step(groups_view(*old(groups)), now),
{
    let ghost m = groups_view(*groups);
    assert(pending_wf(m));
    let ids = keys_of(groups);
    let mut remove_ids: Vec<u32> = Vec::new();
    let mut i: usize = 0;
    while i < ids.len()
        invariant
            groups_view(*groups) == m,
            i <= ids@.len(),
            ids@.to_set() == m.dom(),
            forall|j: int|
                0 <= j < remove_ids@.len() ==> m.contains_key(#[trigger] remove_ids@[j])
                    && group_expired(m[remove_ids@[j]], now),
            forall|j: int|
                0 <= j < i ==> (group_expired(m[#[trigger] ids@[j]], now)
                    ==> remove_ids@.contains(ids@[j])),
        decreases ids.len() - i,
    {
        let id = ids[i];
        let ghost old_remove = remove_ids@;
        assert(groups@.dom() == groups_view(*groups).dom());
        assert(ids@.to_set().contains(id));
        match groups.get(&id) {
            Some(g) => {
                assert(chunks_view(g@) == m[id]);
                if Assembly::group_has_expired(g, now) {
                    remove_ids.push(id);
                }
            },
            None => {
                assert(false);
            },
        }
        proof {
            assert forall|jj: int|
                0 <= jj < i + 1 && group_expired(m[#[trigger] ids@[jj]], now)
                implies remove_ids@.contains(ids@[jj]) by {
                if jj < i && group_expired(m[ids@[jj]], now) {
                    let w = choose|w: int| 0 <= w < old_remove.len() && old_remove[w] == ids@[jj];
                    assert(remove_ids@[w] == ids@[jj]);
                }
                if jj == i && group_expired(m[ids@[jj]], now) {
                    assert(remove_ids@[remove_ids@.len() - 1] == id);
                }
            }
        }
        i = i + 1;
    }
    let mut j: usize = 0;
    while j < remove_ids.len()
        invariant
            j <= remove_ids@.len(),
            pending_wf(m),
            forall|k: int|
                0 <= k < remove_ids@.len() ==> m.contains_key(#[trigger] remove_ids@[k])
                    && group_expired(m[remove_ids@[k]], now),
            forall|k: u32|
                #![trigger groups_view(*groups).contains_key(k)]
                groups_view(*groups).contains_key(k) <==> (m.contains_key(k) && !remove_ids@.take(
                    j as int,
                ).contains(k)),
            forall|k: u32| #![trigger groups_view(*groups)[k]] groups_view(*groups).contains_key(k) ==> groups_view(*groups)[k] == m[k],
        decreases remove_ids.len() - j,
    {
        let id = remove_ids[j];
        let ghost prev = groups_view(*groups);
        let _ = groups.remove(&id);
        j = j + 1;
        proof {
            let t0 = remove_ids@.take(j - 1);
            let t1 = remove_ids@.take(j as int);
            assert(t1 =~= t0.push(id));
            assert(groups_view(*groups) =~= prev.remove(id));
            assert forall|k: u32| t1.contains(k) <==> (t0.contains(k) || k == id) by {
                if t0.contains(k) {
                    let w = choose|w: int| 0 <= w < t0.len() && t0[w] == k;
                    assert(t1[w] == k);
                }
                if k == id {
                    assert(t1[t1.len() - 1] == k);
                }
                if t1.contains(k) && k != id {
                    let w = choose|w: int| 0 <= w < t1.len() && t1[w] == k;
                    assert(t0[w] == k);
                }
            }
        }
    }
    proof {
        assert(remove_ids@.take(j as int) =~= remove_ids@);
        assert forall|k: u32| m.contains_key(k) && group_expired(m[k], now) implies remove_ids@.contains(k) by {
            assert(ids@.to_set().contains(k));
            let jj = choose|jj: int| 0 <= jj < ids@.len() && ids@[jj] == k;
            assert(group_expired(m[ids@[jj]], now));
        }
        assert forall|k: u32| remove_ids@.contains(k) implies group_expired(m[k], now) by {
            let jj = choose|jj: int| 0 <= jj < remove_ids@.len() && remove_ids@[jj] == k;
        }
        assert(groups_view(*groups) =~= expire_step(m, now));
        assert(groups_view(*groups).dom() =~= groups@.dom());
    }
}


// ---------------------------------------------------------------------------
// Laws
// ---------------------------------------------------------------------------

/// Receives `cs` one after the other at time `now`; the final pending
/// parts and what each receipt handed back.
pub open spec fn feed(m: Map<u32, Seq<ChunkView>>, cs: Seq<ChunkView>, now: u64) -> (
    Map<u32, Seq<ChunkView>>,
    Seq<Option<Seq<u8>>>,
)
    decreases cs.len(),
{
    if cs.len() == 0 {
        (m, Seq::empty())
    } else {
        let prev = feed(m, cs.drop_last(), now);
        let next = assembly_step(prev.0, cs.last(), now);
        (next.0, prev.1.push(next.1))
    }
}

proof fn lemma_insert_by_part_last(s: Seq<ChunkView>, c: ChunkView)
    requires
        forall|j: int| 0 <= j < s.len() ==> (#[trigger] s[j]).part <= c.part,
    ensures
        insert_by_part(s, c) == s.push(c),
{
    lemma_insert_by_part_index(s, c, s.len() as int);
    assert(s.insert(s.len() as int, c) =~= s.push(c));
}

/// Parts already in increasing order are left as they are.
proof fn lemma_sort_sorted(s: Seq<ChunkView>)
    requires
        forall|a: int, b: int| 0 <= a < b < s.len() ==> (#[trigger] s[a]).part < (#[trigger] s[b]).part,
    ensures
        sort_by_part(s) == s,
    decreases s.len(),
{
    if s.len() > 0 {
        let t = s.drop_last();
        assert forall|a: int, b: int| 0 <= a < b < t.len() implies (#[trigger] t[a]).part < (#[trigger] t[b]).part by {
            assert(t[a] == s[a] && t[b] == s[b]);
        }
        lemma_sort_sorted(t);
        assert forall|j: int| 0 <= j < t.len() implies (#[trigger] t[j]).part <= s.last().part by {
            assert(t[j] == s[j]);
        }
        lemma_insert_by_part_last(t, s.last());
        assert(t.push(s.last()) =~= s);
    }
}

/// The first `k` parts carry the first bytes of the message.
#[verifier::spinoff_prover]
proof fn lemma_concat_prefix(encoded: Seq<u8>, size: nat, id: u32, deadline: u64, k: nat)
    requires
        size > 0,
        k <= spec_chunk_count(encoded.len(), size),
    ensures
        concat_data(spec_chunks(encoded, size, id, deadline).take(k as int)) == encoded.subrange(
            0,
            if k * size <= encoded.len() { (k * size) as int } else { encoded.len() as int },
        ),
    decreases k,
{
    let cs = spec_chunks(encoded, size, id, deadline);
    if k == 0 {
        assert(cs.take(0) =~= Seq::<ChunkView>::empty());
        assert(encoded.subrange(0, 0) =~= Seq::<u8>::empty());
    } else {
        lemma_concat_prefix(encoded, size, id, deadline, (k - 1) as nat);
        assert(cs.take(k as int).drop_last() =~= cs.take(k - 1));
        lemma_part_start(encoded.len(), size, (k - 1) as nat);
        assert(((k - 1) * size) + size == k * size) by (nonlinear_arith)
            requires
                k >= 1,
        ;
        let a = ((k - 1) * size) as int;
        let b = part_end(encoded.len(), size, k - 1);
        let pre = cs.take(k as int);
        assert(pre.last() == cs[k - 1]);
        assert(cs[k - 1] == spec_chunk_at(encoded, size, id, deadline, k - 1));
        assert(concat_data(pre) == concat_data(pre.drop_last()) + pre.last().data);
        assert(concat_data(cs.take(k - 1)) == encoded.subrange(0, a));
        assert(encoded.subrange(0, a) + encoded.subrange(a, b) =~= encoded.subrange(0, b));
    }
}

proof fn lemma_feed_prefix(
    m: Map<u32, Seq<ChunkView>>,
    encoded: Seq<u8>,
    size: nat,
    id: u32,
    deadline: u64,
    now: u64,
    k: nat,
)
    requires
        size > 0,
        encoded.len() > 0,
        spec_chunk_count(encoded.len(), size) <= u32::MAX,
        now < deadline,
        !m.contains_key(id),
        1 <= k < spec_chunk_count(encoded.len(), size),
    ensures
        feed(m, spec_chunks(encoded, size, id, deadline).take(k as int), now).0 == m.insert(
            id,
            spec_chunks(encoded, size, id, deadline).take(k as int),
        ),
        forall|i: int|
            0 <= i < k ==> (#[trigger] feed(
                m,
                spec_chunks(encoded, size, id, deadline).take(k as int),
                now,
            ).1[i]) is None,
        feed(m, spec_chunks(encoded, size, id, deadline).take(k as int), now).1.len() == k,
    decreases k,
{
    let cs = spec_chunks(encoded, size, id, deadline);
    let n = spec_chunk_count(encoded.len(), size);
    let pre = cs.take(k as int);
    assert(pre.drop_last() =~= cs.take(k - 1));
    assert(pre.last() == cs[k - 1]);
    if k == 1 {
        assert(pre.drop_last() =~= Seq::<ChunkView>::empty());
        assert(feed(m, pre.drop_last(), now) == (m, Seq::<Option<Seq<u8>>>::empty()));
        assert(cs[0].total == n as u32);
        assert(n as u32 != 1);
        assert(seq![cs[0]] =~= pre);
        assert(assembly_step(m, cs[0], now) == (m.insert(id, seq![cs[0]]), None::<Seq<u8>>));
    } else {
        lemma_feed_prefix(m, encoded, size, id, deadline, now, (k - 1) as nat);
        let prev = feed(m, cs.take(k - 1), now);
        let g = cs.take(k - 1);
        assert(prev.0.contains_key(id));
        assert(prev.0[id] == g);
        assert(!has_slot(g, cs[k - 1])) by {
            if has_slot(g, cs[k - 1]) {
                let w = choose|w: int| 0 <= w < g.len() && same_slot(#[trigger] g[w], cs[k - 1]);
                assert(g[w].part == w as u32);
            }
        }
        assert(g.push(cs[k - 1]) =~= pre);
        assert(prev.0.insert(id, pre) =~= m.insert(id, pre));
        let full = feed(m, pre, now);
        assert forall|i: int| 0 <= i < k implies (#[trigger] full.1[i]) is None by {
            if i < k - 1 {
                assert(full.1[i] == prev.1[i]);
            }
        }
    }
}

/// Reassembly in order, with every part received at the same time `now`
/// before the deadline.
proof fn lemma_reassemble_in_order(
    m: Map<u32, Seq<ChunkView>>,
    encoded: Seq<u8>,
    size: nat,
    id: u32,
    deadline: u64,
    now: u64,
)
    requires
        size > 0,
        encoded.len() > 0,
        spec_chunk_count(encoded.len(), size) <= u32::MAX,
        now < deadline,
        !m.contains_key(id),
    ensures
        ({
            let r = feed(m, spec_chunks(encoded, size, id, deadline), now);
            &&& r.0 == m
            &&& r.1.len() == spec_chunk_count(encoded.len(), size)
            &&& r.1.last() == Some(encoded)
            &&& forall|i: int| 0 <= i < r.1.len() - 1 ==> (#[trigger] r.1[i]) is None
        }),
{
    let cs = spec_chunks(encoded, size, id, deadline);
    let n = spec_chunk_count(encoded.len(), size);
    lemma_count_covers(encoded.len(), size);
    assert(n > 0);
    lemma_concat_prefix(encoded, size, id, deadline, n);
    assert(cs.take(n as int) =~= cs);
    assert(encoded.subrange(0, encoded.len() as int) =~= encoded);
    assert(cs.drop_last() =~= cs.take(n - 1));
    if n == 1 {
        assert(cs.take(0) =~= Seq::<ChunkView>::empty());
        lemma_part_start(encoded.len(), size, 0);
        assert(cs[0].data =~= encoded) by {
            assert(concat_data(cs) == concat_data(cs.drop_last()) + cs[0].data);
            assert(concat_data(cs.drop_last()) =~= Seq::<u8>::empty());
        }
        assert(cs.drop_last() =~= Seq::<ChunkView>::empty());
        assert(feed(m, cs.drop_last(), now) == (m, Seq::<Option<Seq<u8>>>::empty()));
        assert(cs[0].total == 1);
        assert(cs.last() == cs[0]);
        assert(assembly_step(m, cs[0], now) == (m, Some(encoded)));
        let r = feed(m, cs, now);
        assert(r.1 =~= seq![Some(encoded)]);
    } else {
        lemma_feed_prefix(m, encoded, size, id, deadline, now, (n - 1) as nat);
        let g = cs.take(n - 1);
        let prev = feed(m, g, now);
        assert(!has_slot(g, cs[n - 1])) by {
            if has_slot(g, cs[n - 1]) {
                let w = choose|w: int| 0 <= w < g.len() && same_slot(#[trigger] g[w], cs[n - 1]);
                assert(g[w].part == w as u32);
            }
        }
        assert(g.push(cs[n - 1]) =~= cs);
        assert forall|a: int, b: int| 0 <= a < b < cs.len() implies (#[trigger] cs[a]).part < (#[trigger] cs[b]).part by {
        }
        lemma_sort_sorted(cs);
        assert(prev.0 == m.insert(id, g));
        assert(m.insert(id, g).remove(id) =~= m);
        assert(cs.last() == cs[n - 1]);
        assert(cs[n - 1].total == n as u32);
        assert(cs[n - 1].id == id);
        assert(assembly_step(prev.0, cs[n - 1], now) == (m, Some(encoded)));
        let full = feed(m, cs, now);
        assert forall|i: int| 0 <= i < full.1.len() - 1 implies (#[trigger] full.1[i]) is None by {
            assert(full.1[i] == prev.1[i]);
        }
    }
}

/// Part indices never decrease along `s`.
pub open spec fn sorted_by_part(s: Seq<ChunkView>) -> bool {
    forall|i: int, j: int| 0 <= i < j < s.len() ==> (#[trigger] s[i]).part <= (#[trigger] s[j]).part
}

proof fn lemma_insert_by_part_sorted(s: Seq<ChunkView>, c: ChunkView)
    requires
        sorted_by_part(s),
    ensures
        sorted_by_part(insert_by_part(s, c)),
        insert_by_part(s, c).to_multiset() == s.to_multiset().insert(c),
    decreases s.len(),
{
    broadcast use vstd::seq_lib::group_to_multiset_ensures;
    broadcast use vstd::multiset::group_multiset_axioms;

    if s.len() == 0 {
        assert(seq![c] =~= s.insert(0, c));
    } else if c.part < s[0].part {
        assert(seq![c] + s =~= s.insert(0, c));
    } else {
        let t = s.drop_first();
        assert(sorted_by_part(t)) by {
            assert forall|i: int, j: int| 0 <= i < j < t.len() implies (#[trigger] t[i]).part <= (#[trigger] t[j]).part by {
                assert(t[i] == s[i + 1] && t[j] == s[j + 1]);
            }
        }
        lemma_insert_by_part_sorted(t, c);
        let r = insert_by_part(t, c);
        assert(seq![s[0]] + r =~= r.insert(0, s[0]));
        assert(t.insert(0, s[0]) =~= s);
        assert forall|x: ChunkView| r.contains(x) implies s[0].part <= x.part by {
            assert(r.to_multiset().count(x) > 0);
            if x != c {
                assert(t.to_multiset().count(x) > 0);
                assert(t.contains(x));
                let k = choose|k: int| 0 <= k < t.len() && t[k] == x;
                assert(s[k + 1] == x);
            }
        }
        let res = seq![s[0]] + r;
        assert forall|i: int, j: int| 0 <= i < j < res.len() implies (#[trigger] res[i]).part <= (#[trigger] res[j]).part by {
            if i == 0 {
                assert(res[j] == r[j - 1]);
                assert(r.contains(r[j - 1]));
            } else {
                assert(res[i] == r[i - 1] && res[j] == r[j - 1]);
            }
        }
    }
}

proof fn lemma_sort_by_part_props(s: Seq<ChunkView>)
    ensures
        sorted_by_part(sort_by_part(s)),
        sort_by_part(s).to_multiset() == s.to_multiset(),
    decreases s.len(),
{
    broadcast use vstd::seq_lib::group_to_multiset_ensures;

    if s.len() == 0 {
    } else {
        lemma_sort_by_part_props(s.drop_last());
        lemma_insert_by_part_sorted(sort_by_part(s.drop_last()), s.last());
        assert(s.drop_last().push(s.last()) =~= s);
    }
}

/// Two part-sorted sequences with the same elements, one of them without
/// repeated part indices, are the same sequence.
proof fn lemma_sorted_distinct_unique(x: Seq<ChunkView>, y: Seq<ChunkView>)
    requires
        sorted_by_part(x),
        sorted_by_part(y),
        x.to_multiset() == y.to_multiset(),
        forall|i: int, j: int| 0 <= i < j < x.len() ==> (#[trigger] x[i]).part != (#[trigger] x[j]).part,
    ensures
        x == y,
    decreases x.len(),
{
    broadcast use vstd::seq_lib::group_to_multiset_ensures;
    broadcast use vstd::multiset::group_multiset_axioms;

    vstd::seq_lib::to_multiset_len(x);
    vstd::seq_lib::to_multiset_len(y);
    assert(x.len() == y.len());
    if x.len() == 0 {
        assert(x =~= y);
    } else {
        assert(x.to_multiset().count(y[0]) > 0);
        assert(x.contains(y[0]));
        let i = choose|i: int| 0 <= i < x.len() && x[i] == y[0];
        assert(y.to_multiset().count(x[0]) > 0);
        assert(y.contains(x[0]));
        let j = choose|j: int| 0 <= j < y.len() && y[j] == x[0];
        assert(x[0].part <= x[i].part);
        assert(y[0].part <= y[j].part);
        assert(i == 0);
        assert(x.drop_first() =~= x.remove(0));
        assert(y.drop_first() =~= y.remove(0));
        let xd = x.drop_first();
        let yd = y.drop_first();
        assert(sorted_by_part(xd)) by {
            assert forall|a: int, b: int| 0 <= a < b < xd.len() implies (#[trigger] xd[a]).part <= (#[trigger] xd[b]).part by {
                assert(xd[a] == x[a + 1] && xd[b] == x[b + 1]);
            }
        }
        assert(sorted_by_part(yd)) by {
            assert forall|a: int, b: int| 0 <= a < b < yd.len() implies (#[trigger] yd[a]).part <= (#[trigger] yd[b]).part by {
                assert(yd[a] == y[a + 1] && yd[b] == y[b + 1]);
            }
        }
        assert forall|a: int, b: int| 0 <= a < b < xd.len() implies (#[trigger] xd[a]).part != (#[trigger] xd[b]).part by {
            assert(xd[a] == x[a + 1] && xd[b] == x[b + 1]);
        }
        lemma_sorted_distinct_unique(xd, yd);
        assert(x =~= y) by {
            assert forall|k: int| 0 <= k < x.len() implies x[k] == y[k] by {
                if k > 0 {
                    assert(xd[k - 1] == yd[k - 1]);
                }
            }
        }
    }
}

/// Every element of a reordering of the parts of a message is one of those
/// parts, and no part occurs twice.
proof fn lemma_reordering_facts(encoded: Seq<u8>, size: nat, id: u32, deadline: u64, order: Seq<ChunkView>)
    requires
        size > 0,
        spec_chunk_count(encoded.len(), size) <= u32::MAX,
        order.to_multiset() == spec_chunks(encoded, size, id, deadline).to_multiset(),
    ensures
        order.len() == spec_chunk_count(encoded.len(), size),
        forall|i: int|
            0 <= i < order.len() ==> (#[trigger] order[i]) == spec_chunks(encoded, size, id, deadline)[order[i].part as int]
                && (order[i].part as int) < spec_chunk_count(encoded.len(), size),
        order.no_duplicates(),
{
    broadcast use vstd::seq_lib::group_to_multiset_ensures;
    broadcast use vstd::multiset::group_multiset_axioms;

    let cs = spec_chunks(encoded, size, id, deadline);
    vstd::seq_lib::to_multiset_len(order);
    vstd::seq_lib::to_multiset_len(cs);
    assert(order.len() == cs.len());
    assert forall|i: int| 0 <= i < order.len() implies (#[trigger] order[i]) == cs[order[i].part as int]
        && (order[i].part as int) < spec_chunk_count(encoded.len(), size) by {
        assert(order.to_multiset().count(order[i]) > 0);
        assert(cs.contains(order[i]));
        let j = choose|j: int| 0 <= j < cs.len() && cs[j] == order[i];
        assert(cs[j].part == j as u32);
    }
    assert(cs.no_duplicates()) by {
        assert forall|a: int, b: int| 0 <= a < cs.len() && 0 <= b < cs.len() && a != b implies cs[a] != cs[b] by {
            assert(cs[a].part == a as u32 && cs[b].part == b as u32);
        }
    }
    cs.lemma_multiset_has_no_duplicates();
    order.lemma_multiset_has_no_duplicates_conv();
}

proof fn lemma_feed_reordered_prefix(
    m: Map<u32, Seq<ChunkView>>,
    encoded: Seq<u8>,
    size: nat,
    id: u32,
    deadline: u64,
    now: u64,
    order: Seq<ChunkView>,
    k: nat,
)
    requires
        size > 0,
        spec_chunk_count(encoded.len(), size) <= u32::MAX,
        now < deadline,
        !m.contains_key(id),
        order.to_multiset() == spec_chunks(encoded, size, id, deadline).to_multiset(),
        1 <= k < order.len(),
    ensures
        feed(m, order.take(k as int), now).0 == m.insert(id, order.take(k as int)),
        feed(m, order.take(k as int), now).1.len() == k,
        forall|i: int| 0 <= i < k ==> (#[trigger] feed(m, order.take(k as int), now).1[i]) is None,
    decreases k,
{
    let cs = spec_chunks(encoded, size, id, deadline);
    let n = spec_chunk_count(encoded.len(), size);
    lemma_reordering_facts(encoded, size, id, deadline, order);
    let pre = order.take(k as int);
    assert(pre.drop_last() =~= order.take(k - 1));
    assert(pre.last() == order[k - 1]);
    let c = order[k - 1];
    assert(c == cs[c.part as int]);
    assert(c.total == n as u32);
    assert(c.id == id);
    if k == 1 {
        assert(pre.drop_last() =~= Seq::<ChunkView>::empty());
        assert(feed(m, pre.drop_last(), now) == (m, Seq::<Option<Seq<u8>>>::empty()));
        assert(n as u32 != 1);
        assert(seq![c] =~= pre);
        assert(assembly_step(m, c, now) == (m.insert(id, seq![c]), None::<Seq<u8>>));
    } else {
        lemma_feed_reordered_prefix(m, encoded, size, id, deadline, now, order, (k - 1) as nat);
        let prev = feed(m, order.take(k - 1), now);
        let g = order.take(k - 1);
        assert(!has_slot(g, c)) by {
            if has_slot(g, c) {
                let w = choose|w: int| 0 <= w < g.len() && same_slot(#[trigger] g[w], c);
                assert(g[w] == order[w]);
                assert(order[w] == cs[order[w].part as int]);
                assert(order[w] == order[k - 1]);
            }
        }
        assert(g.push(c) =~= pre);
        assert(k < n);
        assert(prev.0.insert(id, pre) =~= m.insert(id, pre));
        let full = feed(m, pre, now);
        assert forall|i: int| 0 <= i < k implies (#[trigger] full.1[i]) is None by {
            if i < k - 1 {
                assert(full.1[i] == prev.1[i]);
            }
        }
    }
}

/// Reassembly in any order, with every part received at the same time
/// `now` before the deadline.
proof fn lemma_reassemble_any_order(
    m: Map<u32, Seq<ChunkView>>,
    encoded: Seq<u8>,
    size: nat,
    id: u32,
    deadline: u64,
    now: u64,
    order: Seq<ChunkView>,
)
    requires
        size > 0,
        encoded.len() > 0,
        spec_chunk_count(encoded.len(), size) <= u32::MAX,
        now < deadline,
        !m.contains_key(id),
        order.to_multiset() == spec_chunks(encoded, size, id, deadline).to_multiset(),
    ensures
        ({
            let r = feed(m, order, now);
            &&& r.0 == m
            &&& r.1.len() == order.len()
            &&& r.1.last() == Some(encoded)
            &&& forall|i: int| 0 <= i < r.1.len() - 1 ==> (#[trigger] r.1[i]) is None
        }),
{
    let cs = spec_chunks(encoded, size, id, deadline);
    let n = spec_chunk_count(encoded.len(), size);
    lemma_count_covers(encoded.len(), size);
    lemma_reordering_facts(encoded, size, id, deadline, order);
    lemma_reassemble_in_order(m, encoded, size, id, deadline, now);
    lemma_concat_prefix(encoded, size, id, deadline, n);
    assert(cs.take(n as int) =~= cs);
    assert(encoded.subrange(0, encoded.len() as int) =~= encoded);
    assert(order.drop_last() =~= order.take(n - 1));
    let c = order[n - 1];
    assert(c == cs[c.part as int]);
    if n == 1 {
        assert(c == cs[0]);
        assert(order =~= cs);
    } else {
        lemma_feed_reordered_prefix(m, encoded, size, id, deadline, now, order, (n - 1) as nat);
        let g = order.take(n - 1);
        let prev = feed(m, g, now);
        assert(!has_slot(g, c)) by {
            if has_slot(g, c) {
                let w = choose|w: int| 0 <= w < g.len() && same_slot(#[trigger] g[w], c);
                assert(g[w] == order[w]);
                assert(order[w] == cs[order[w].part as int]);
                assert(order[w] == order[n - 1]);
            }
        }
        assert(g.push(c) =~= order);
        lemma_sort_by_part_props(order);
        assert(sorted_by_part(cs)) by {
            assert forall|a: int, b: int| 0 <= a < b < cs.len() implies (#[trigger] cs[a]).part <= (#[trigger] cs[b]).part by {
            }
        }
        assert forall|a: int, b: int| 0 <= a < b < cs.len() implies (#[trigger] cs[a]).part != (#[trigger] cs[b]).part by {
        }
        lemma_sorted_distinct_unique(cs, sort_by_part(order));
        assert(concat_data(cs) == encoded);
        assert(prev.0 == m.insert(id, g));
        assert(m.insert(id, g).remove(id) =~= m);
        assert(order.last() == c);
        assert(c.total == n as u32);
        assert(c.id == id);
        assert(assembly_step(prev.0, c, now) == (m, Some(encoded)));
        let full = feed(m, order, now);
        assert forall|i: int| 0 <= i < full.1.len() - 1 implies (#[trigger] full.1[i]) is None by {
            assert(full.1[i] == prev.1[i]);
        }
    }
}

/// Receives `cs` one after the other, the `i`-th at time `times[i]`; the
/// final pending parts and what each receipt handed back.
pub open spec fn feed_at(m: Map<u32, Seq<ChunkView>>, cs: Seq<ChunkView>, times: Seq<u64>) -> (
    Map<u32, Seq<ChunkView>>,
    Seq<Option<Seq<u8>>>,
)
    decreases cs.len(),
{
    if cs.len() == 0 {
        (m, Seq::empty())
    } else {
        let prev = feed_at(m, cs.drop_last(), times.take(cs.len() - 1));
        let next = assembly_step(prev.0, cs.last(), times[cs.len() - 1]);
        (next.0, prev.1.push(next.1))
    }
}

/// Only whether a part has expired depends on the time it arrives.
proof fn lemma_feed_at_live(m: Map<u32, Seq<ChunkView>>, cs: Seq<ChunkView>, times: Seq<u64>, now: u64)
    requires
        times.len() == cs.len(),
        forall|i: int| 0 <= i < cs.len() ==> !is_expired(#[trigger] cs[i], times[i]),
        forall|i: int| 0 <= i < cs.len() ==> !is_expired(#[trigger] cs[i], now),
    ensures
        feed_at(m, cs, times) == feed(m, cs, now),
    decreases cs.len(),
{
    if cs.len() > 0 {
        let n = cs.len() - 1;
        let t = times.take(n);
        assert forall|i: int| 0 <= i < n implies !is_expired(#[trigger] cs.drop_last()[i], t[i]) by {
            assert(cs.drop_last()[i] == cs[i] && t[i] == times[i]);
        }
        assert forall|i: int| 0 <= i < n implies !is_expired(#[trigger] cs.drop_last()[i], now) by {
            assert(cs.drop_last()[i] == cs[i]);
        }
        lemma_feed_at_live(m, cs.drop_last(), t, now);
        assert(!is_expired(cs[n], times[n]));
        assert(!is_expired(cs[n], now));
    }
}

/// The parts of a message, as [`split_into_chunks`] and [`next_part`] cut
/// them: one for each `size` bytes begun, each carrying the message id, its
/// index, the number of parts and the deadline; every part but the last
/// holds exactly `size` bytes, none is empty, and their payloads, one after
/// the other, are the message.
pub proof fn law_parts_concatenate(encoded: Seq<u8>, size: nat, id: u32, deadline: u64)
    requires
        size > 0,
        spec_chunk_count(encoded.len(), size) <= u32::MAX,
    ensures
        ({
            let cs = spec_chunks(encoded, size, id, deadline);
            &&& cs.len() * size >= encoded.len()
            &&& cs.len() > 0 ==> (cs.len() - 1) * size < encoded.len()
            &&& concat_data(cs) == encoded
            &&& forall|i: int|
                #![trigger cs[i]]
                0 <= i < cs.len() ==> {
                    &&& cs[i].id == id
                    &&& cs[i].part == i
                    &&& cs[i].total == cs.len()
                    &&& cs[i].deadline == deadline
                    &&& 0 < cs[i].data.len() <= size
                    &&& i < cs.len() - 1 ==> cs[i].data.len() == size
                }
        }),
{
    let cs = spec_chunks(encoded, size, id, deadline);
    let n = spec_chunk_count(encoded.len(), size);
    lemma_count_covers(encoded.len(), size);
    lemma_concat_prefix(encoded, size, id, deadline, n);
    assert(cs.take(n as int) =~= cs);
    assert(encoded.subrange(0, encoded.len() as int) =~= encoded);
    assert forall|i: int| 0 <= i < cs.len() implies {
        &&& cs[i].id == id
        &&& cs[i].part == i
        &&& cs[i].total == cs.len()
        &&& cs[i].deadline == deadline
        &&& 0 < cs[i].data.len() <= size
        &&& i < cs.len() - 1 ==> cs[i].data.len() == size
    } by {
        lemma_part_start(encoded.len(), size, i as nat);
        if i < n - 1 {
            assert((i + 1) * size <= (n - 1) * size) by (nonlinear_arith)
                requires
                    i + 1 <= n - 1,
                    size > 0,
            ;
        }
        assert((i + 1) * size == i * size + size) by (nonlinear_arith);
    }
}

/// Reassembly gives back what was split: when all parts of a message
/// arrive in order, each before the deadline (at whatever times), the last
/// one hands back exactly the message's bytes, the earlier ones hand back
/// nothing, and the pending parts of other messages are as they were.
pub proof fn law_split_then_reassemble(
    m: Map<u32, Seq<ChunkView>>,
    encoded: Seq<u8>,
    size: nat,
    id: u32,
    deadline: u64,
    times: Seq<u64>,
)
    requires
        size > 0,
        encoded.len() > 0,
        spec_chunk_count(encoded.len(), size) <= u32::MAX,
        times.len() == spec_chunk_count(encoded.len(), size),
        forall|i: int| 0 <= i < times.len() ==> #[trigger] times[i] < deadline,
        !m.contains_key(id),
    ensures
        ({
            let r = feed_at(m, spec_chunks(encoded, size, id, deadline), times);
            &&& r.0 == m
            &&& r.1.len() == spec_chunk_count(encoded.len(), size)
            &&& r.1.last() == Some(encoded)
            &&& forall|i: int| 0 <= i < r.1.len() - 1 ==> (#[trigger] r.1[i]) is None
        }),
{
    let cs = spec_chunks(encoded, size, id, deadline);
    lemma_count_covers(encoded.len(), size);
    let now = times[0];
    lemma_feed_at_live(m, cs, times, now);
    lemma_reassemble_in_order(m, encoded, size, id, deadline, now);
}

/// Reassembly does not depend on arrival order or times: when the parts of
/// a message arrive in any order, each exactly once and each before the
/// deadline, the last one hands back exactly the message's bytes, the
/// earlier ones hand back nothing, and the pending parts of other messages
/// are as they were.
pub proof fn law_reassembly_in_any_order(
    m: Map<u32, Seq<ChunkView>>,
    encoded: Seq<u8>,
    size: nat,
    id: u32,
    deadline: u64,
    order: Seq<ChunkView>,
    times: Seq<u64>,
)
    requires
        size > 0,
        encoded.len() > 0,
        spec_chunk_count(encoded.len(), size) <= u32::MAX,
        order.to_multiset() == spec_chunks(encoded, size, id, deadline).to_multiset(),
        times.len() == order.len(),
        forall|i: int| 0 <= i < times.len() ==> #[trigger] times[i] < deadline,
        !m.contains_key(id),
    ensures
        ({
            let r = feed_at(m, order, times);
            &&& r.0 == m
            &&& r.1.len() == order.len()
            &&& r.1.last() == Some(encoded)
            &&& forall|i: int| 0 <= i < r.1.len() - 1 ==> (#[trigger] r.1[i]) is None
        }),
{
    lemma_count_covers(encoded.len(), size);
    lemma_reordering_facts(encoded, size, id, deadline, order);
    let now = times[0];
    assert forall|i: int| 0 <= i < order.len() implies !is_expired(#[trigger] order[i], times[i])
        && !is_expired(order[i], now) by {
        assert(order[i].deadline == deadline);
    }
    lemma_feed_at_live(m, order, times, now);
    lemma_reassemble_any_order(m, encoded, size, id, deadline, now, order);
}

/// A part delivered twice changes nothing the second time, unless the
/// message it names is then complete by count.
pub proof fn law_duplicate_part_is_ignored(m: Map<u32, Seq<ChunkView>>, c: ChunkView, now: u64)
    requires
        m.contains_key(c.id),
        has_slot(m[c.id], c),
        m[c.id].len() != c.total,
    ensures
        assembly_step(m, c, now) == (m, None::<Seq<u8>>),
{
    if !is_expired(c, now) {
        assert(m.insert(c.id, m[c.id]) =~= m);
    }
}

/// A part whose deadline has passed is dropped without effect.
pub proof fn law_expired_part_is_dropped(m: Map<u32, Seq<ChunkView>>, c: ChunkView, now: u64)
    requires
        c.deadline <= now,
    ensures
        assembly_step(m, c, now) == (m, None::<Seq<u8>>),
{
}

/// After expiry no pending message holds an expired part, and every
/// message without one is kept unchanged.
pub proof fn law_expiry_keeps_exactly_the_live(m: Map<u32, Seq<ChunkView>>, now: u64)
    requires
        m.dom().finite(),
    ensures
        forall|k: u32| #[trigger] expire_step(m, now).contains_key(k) ==> !group_expired(m[k], now),
        forall|k: u32|
            m.contains_key(k) && !group_expired(m[k], now) ==> #[trigger] expire_step(
                m,
                now,
            ).contains_key(k) && expire_step(m, now)[k] == m[k],
{
}

} // verus!
