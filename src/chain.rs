//! Block-header tree with an active chain of greatest cumulative work.
//!
//! Blocks are identified by an opaque key (their hash as the header store
//! indexes it). The genesis block is always present. Each imported header
//! names its parent and the work it adds; the active chain runs from genesis
//! to the block of greatest cumulative work, the first seen among equals.
use vstd::prelude::*;

verus! {

/// Key of a block.
pub type BlockKey = u64;

/// A header as the tree needs it.
#[derive(Clone, Copy, Debug, PartialEq, Eq, Structural)]
pub struct Header {
    /// Key of this block.
    pub key: BlockKey,
    /// Key of the parent block.
    pub parent: BlockKey,
    /// Proof of work that this block adds.
    pub work: u64,
}

/// A stored block.
#[derive(Clone, Copy, Debug, PartialEq, Eq, Structural)]
pub struct Block {
    /// Key of this block.
    pub key: BlockKey,
    /// Position of the parent block in the store; genesis points to itself.
    pub parent: usize,
    /// Cumulative work from genesis up to and including this block.
    pub total: u128,
}

/// A change of the active chain, for the client.
#[derive(Clone, Copy, Debug, PartialEq, Eq, Structural)]
pub enum ChainEvent {
    /// The block became part of the active chain at this height.
    BlockConnected { key: BlockKey, height: u64 },
    /// The block left the active chain, where it stood at this height.
    BlockDisconnected { key: BlockKey, height: u64 },
}

/// Why a header was not imported.
#[derive(Clone, Copy, Debug, PartialEq, Eq, Structural)]
pub enum ImportError {
    /// The parent block is not stored.
    UnknownParent,
    /// The cumulative work would not fit in 128 bits.
    WorkOverflow,
}

/// Whether some stored block has key `key`.
pub open spec fn stores(blocks: Seq<Block>, key: BlockKey) -> bool {
    exists|i: int| 0 <= i < blocks.len() && #[trigger] blocks[i].key == key
}

/// Position of the block with key `key`.
pub open spec fn slot_of(blocks: Seq<Block>, key: BlockKey) -> int {
    choose|i: int| 0 <= i < blocks.len() && #[trigger] blocks[i].key == key
}

/// Keys from genesis to the block at position `i`, so that the key at index
/// `h` is that of the ancestor at height `h`.
pub open spec fn ancestry(blocks: Seq<Block>, i: int) -> Seq<BlockKey>
    decreases i,
{
    if 0 < i < blocks.len() && blocks[i].parent < i {
        ancestry(blocks, blocks[i].parent as int).push(blocks[i].key)
    } else {
        seq![blocks[0].key]
    }
}

/// Position of the block of greatest cumulative work among the first `n`,
/// the earliest among equals.
pub open spec fn best_of(blocks: Seq<Block>, n: int) -> int
    decreases n,
{
    if n <= 1 {
        0
    } else {
        let b = best_of(blocks, n - 1);
        if blocks[n - 1].total > blocks[b].total {
            n - 1
        } else {
            b
        }
    }
}

/// Length of the longest common prefix of `a` and `b` is `f`.
pub open spec fn fork_at(a: Seq<BlockKey>, b: Seq<BlockKey>, f: int) -> bool {
    &&& 0 <= f <= a.len()
    &&& f <= b.len()
    &&& forall|h: int| 0 <= h < f ==> a[h] == b[h]
    &&& (f == a.len() || f == b.len() || a[f] != b[f])
}

/// Blocks of `old` from its tip down to height `f`, as disconnections.
pub open spec fn disconnections(old: Seq<BlockKey>, f: int) -> Seq<ChainEvent> {
    Seq::new(
        (old.len() - f) as nat,
        |k: int|
            ChainEvent::BlockDisconnected {
                key: old[old.len() - 1 - k],
                height: (old.len() - 1 - k) as u64,
            },
    )
}

/// Blocks of `new` from height `f` up to its tip, as connections.
pub open spec fn connections(new: Seq<BlockKey>, f: int) -> Seq<ChainEvent> {
    Seq::new(
        (new.len() - f) as nat,
        |k: int| ChainEvent::BlockConnected { key: new[f + k], height: (f + k) as u64 },
    )
}

/// The events that move the active chain from `old` to `new`: with `f` the
/// length of their common prefix, the blocks of `old` above it from the tip
/// down, then the blocks of `new` above it from the bottom up.
pub open spec fn reorg_events(old: Seq<BlockKey>, new: Seq<BlockKey>, f: int) -> Seq<ChainEvent> {
    disconnections(old, f) + connections(new, f)
}

/// Length of the common prefix of `a` and `b`, counting from position `k`
/// while they agree.
pub open spec fn shared_from(a: Seq<BlockKey>, b: Seq<BlockKey>, k: int) -> int
    decreases a.len() - k,
{
    if 0 <= k < a.len() && k < b.len() && a[k] == b[k] {
        shared_from(a, b, k + 1)
    } else {
        k
    }
}

/// The tree and the outcome after importing header `h` into `v`. A known
/// header changes nothing; a header whose parent is unknown, or whose
/// cumulative work overflows, is refused. Otherwise the block is stored, the
/// tip moves to the block of greatest work, and the events lead from the old
/// active chain to the new one.
pub open spec fn import_spec(v: ChainView, h: Header) -> (ChainView, Result<
    Seq<ChainEvent>,
    ImportError,
>) {
    if stores(v.blocks, h.key) {
        (v, Ok(Seq::<ChainEvent>::empty()))
    } else if !stores(v.blocks, h.parent) {
        (v, Err(ImportError::UnknownParent))
    } else if v.blocks[slot_of(v.blocks, h.parent)].total + h.work > u128::MAX {
        (v, Err(ImportError::WorkOverflow))
    } else {
        let block = Block {
            key: h.key,
            parent: slot_of(v.blocks, h.parent) as usize,
            total: (v.blocks[slot_of(v.blocks, h.parent)].total + h.work) as u128,
        };
        let blocks = v.blocks.push(block);
        let tip = best_of(blocks, blocks.len() as int);
        let active = ancestry(blocks, tip);
        (
            ChainView { blocks, tip, active },
            Ok(reorg_events(v.active, active, shared_from(v.active, active, 0))),
        )
    }
}

/// The best block among the first `n` is one of them.
proof fn lemma_best_range(blocks: Seq<Block>, n: int)
    requires
        1 <= n <= blocks.len(),
    ensures
        0 <= best_of(blocks, n) < n,
    decreases n,
{
    if n > 1 {
        lemma_best_range(blocks, n - 1);
    }
}

/// Adding a block leaves the best of the earlier ones unchanged.
proof fn lemma_best_push(blocks: Seq<Block>, x: Block, n: int)
    requires
        1 <= n <= blocks.len(),
    ensures
        best_of(blocks.push(x), n) == best_of(blocks, n),
    decreases n,
{
    if n > 1 {
        lemma_best_push(blocks, x, n - 1);
        lemma_best_range(blocks, n - 1);
    }
}

/// Adding a block leaves the ancestry of the earlier ones unchanged.
proof fn lemma_ancestry_push(blocks: Seq<Block>, x: Block, i: int)
    requires
        0 <= i < blocks.len(),
    ensures
        ancestry(blocks.push(x), i) == ancestry(blocks, i),
    decreases i,
{
    if 0 < i && blocks[i].parent < i {
        lemma_ancestry_push(blocks, x, blocks[i].parent as int);
    }
}

/// An ancestry is never empty.
proof fn lemma_ancestry_len(blocks: Seq<Block>, i: int)
    ensures
        ancestry(blocks, i).len() >= 1,
    decreases i,
{
    if 0 < i < blocks.len() && blocks[i].parent < i {
        lemma_ancestry_len(blocks, blocks[i].parent as int);
    }
}

/// The tree and the outcome after importing `hs` in order into `v`: the
/// events of each import in turn, up to the first refusal, which ends the batch.
pub open spec fn import_all(v: ChainView, hs: Seq<Header>) -> (ChainView, Result<
    Seq<ChainEvent>,
    ImportError,
>)
    decreases hs.len(),
{
    if hs.len() == 0 {
        (v, Ok(Seq::<ChainEvent>::empty()))
    } else {
        let (v1, r1) = import_all(v, hs.drop_last());
        match r1 {
            Err(e) => (v1, Err(e)),
            Ok(e1) => {
                let (v2, r2) = import_spec(v1, hs.last());
                match r2 {
                    Err(e) => (v2, Err(e)),
                    Ok(e2) => (v2, Ok(e1 + e2)),
                }
            },
        }
    }
}

/// A refusal within the first `k` headers ends the batch there.
proof fn lemma_import_all_stops(v: ChainView, hs: Seq<Header>, k: int)
    requires
        0 <= k <= hs.len(),
        import_all(v, hs.take(k)).1 is Err,
    ensures
        import_all(v, hs) == import_all(v, hs.take(k)),
    decreases hs.len(),
{
    if k < hs.len() {
        assert(hs.drop_last().take(k) =~= hs.take(k));
        lemma_import_all_stops(v, hs.drop_last(), k);
    } else {
        assert(hs.take(k) =~= hs);
    }
}

/// Storing one more block keeps the stored keys stored.
proof fn lemma_stores_push(blocks: Seq<Block>, x: Block, key: BlockKey)
    requires
        stores(blocks, key),
    ensures
        stores(blocks.push(x), key),
{
    let i = choose|i: int| 0 <= i < blocks.len() && #[trigger] blocks[i].key == key;
    assert(blocks.push(x)[i].key == key);
}

/// After a batch imported without refusal, every header of it is stored.
proof fn lemma_import_all_stores(v: ChainView, hs: Seq<Header>)
    requires
        import_all(v, hs).1 is Ok,
    ensures
        forall|k: int| 0 <= k < hs.len() ==> stores(import_all(v, hs).0.blocks, #[trigger] hs[k].key),
    decreases hs.len(),
{
    if hs.len() > 0 {
        let pre = hs.drop_last();
        lemma_import_all_stores(v, pre);
        let v1 = import_all(v, pre).0;
        let h = hs.last();
        let v2 = import_all(v, hs).0;
        assert forall|k: int| 0 <= k < hs.len() implies stores(v2.blocks, #[trigger] hs[k].key) by {
            if stores(v1.blocks, h.key) {
                if k < hs.len() - 1 {
                    assert(pre[k] == hs[k]);
                }
            } else {
                let block = Block {
                    key: h.key,
                    parent: slot_of(v1.blocks, h.parent) as usize,
                    total: (v1.blocks[slot_of(v1.blocks, h.parent)].total + h.work) as u128,
                };
                if k < hs.len() - 1 {
                    assert(pre[k] == hs[k]);
                    lemma_stores_push(v1.blocks, block, hs[k].key);
                } else {
                    assert(v2.blocks[v1.blocks.len() as int].key == h.key);
                }
            }
        }
    }
}

/// A batch of headers that are all stored already changes nothing.
proof fn lemma_import_all_known(v: ChainView, hs: Seq<Header>)
    requires
        forall|k: int| 0 <= k < hs.len() ==> stores(v.blocks, #[trigger] hs[k].key),
    ensures
        import_all(v, hs) == (v, Ok::<Seq<ChainEvent>, ImportError>(Seq::<ChainEvent>::empty())),
    decreases hs.len(),
{
    if hs.len() > 0 {
        let pre = hs.drop_last();
        assert forall|k: int| 0 <= k < pre.len() implies stores(v.blocks, #[trigger] pre[k].key) by {
            assert(pre[k] == hs[k]);
        }
        lemma_import_all_known(v, pre);
        assert(stores(v.blocks, hs[hs.len() - 1].key));
        assert(Seq::<ChainEvent>::empty() + Seq::<ChainEvent>::empty() =~= Seq::<
            ChainEvent,
        >::empty());
    }
}

/// Importing a batch that was imported without refusal a second time leaves
/// the tree, and so its active tip, as it is, and reports no events, so no
/// block is connected twice.
pub proof fn lemma_import_idempotent(v: ChainView, hs: Seq<Header>)
    requires
        v.wf(),
        import_all(v, hs).1 is Ok,
    ensures
        import_all(import_all(v, hs).0, hs) == (
            import_all(v, hs).0,
            Ok::<Seq<ChainEvent>, ImportError>(Seq::<ChainEvent>::empty()),
        ),
{
    lemma_import_all_stores(v, hs);
    lemma_import_all_known(import_all(v, hs).0, hs);
}

/// Counting from a position up to which `a` and `b` agree ends at their fork.
proof fn lemma_shared_fork(a: Seq<BlockKey>, b: Seq<BlockKey>, k: int)
    requires
        0 <= k <= a.len(),
        k <= b.len(),
        forall|h: int| 0 <= h < k ==> a[h] == b[h],
    ensures
        fork_at(a, b, shared_from(a, b, k)),
    decreases a.len() - k,
{
    if k < a.len() && k < b.len() && a[k] == b[k] {
        lemma_shared_fork(a, b, k + 1);
    }
}

/// Re-org ordering: with `f` the length of the common prefix of the old and
/// new active chains, an import reports the old blocks from the old tip down
/// to height `f`, then the new blocks from height `f` up to the new tip.
pub proof fn lemma_reorg_order(v: ChainView, h: Header)
    requires
        v.wf(),
        import_spec(v, h).1 is Ok,
    ensures
        ({
            let (w, r) = import_spec(v, h);
            let f = shared_from(v.active, w.active, 0);
            let events = r->Ok_0;
            &&& fork_at(v.active, w.active, f)
            &&& events.len() == (v.active.len() - f) + (w.active.len() - f)
            &&& forall|k: int|
                0 <= k < v.active.len() - f ==> #[trigger] events[k]
                    == (ChainEvent::BlockDisconnected {
                    key: v.active[v.height() - k],
                    height: (v.height() - k) as u64,
                })
            &&& forall|k: int|
                0 <= k < w.active.len() - f ==> #[trigger] events[(v.active.len() - f) + k]
                    == (ChainEvent::BlockConnected { key: w.active[f + k], height: (f + k) as u64 })
        }),
{
    let (w, r) = import_spec(v, h);
    lemma_shared_fork(v.active, w.active, 0);
    let f = shared_from(v.active, w.active, 0);
    let events = r->Ok_0;
    let d = disconnections(v.active, f);
    let c = connections(w.active, f);
    if !stores(v.blocks, h.key) {
        assert(events == d + c);
    } else {
        assert(w.active == v.active);
        assert(f == v.active.len()) by {
            if f < v.active.len() {
                assert(v.active[f] == w.active[f]);
            }
        }
        assert(events =~= d + c);
    }
    assert forall|k: int| 0 <= k < v.active.len() - f implies #[trigger] events[k]
        == (ChainEvent::BlockDisconnected {
        key: v.active[v.height() - k],
        height: (v.height() - k) as u64,
    }) by {
        assert(events[k] == d[k]);
    }
    assert forall|k: int| 0 <= k < w.active.len() - f implies #[trigger] events[(v.active.len()
        - f) + k] == (ChainEvent::BlockConnected { key: w.active[f + k], height: (f + k) as u64 }) by {
        assert(events[(v.active.len() - f) + k] == c[k]);
    }
}

/// The header tree as a mathematical value.
pub struct ChainView {
    /// Stored blocks, in the order they were first seen.
    pub blocks: Seq<Block>,
    /// Position of the tip of the active chain.
    pub tip: int,
    /// Keys of the active chain, from genesis to the tip.
    pub active: Seq<BlockKey>,
}

impl ChainView {
    /// Genesis first, parents before children, keys unique, and the active
    /// chain leads to the block of greatest work.
    pub open spec fn wf(self) -> bool {
        &&& self.blocks.len() >= 1
        &&& self.blocks[0].parent == 0
        &&& forall|i: int| 0 < i < self.blocks.len() ==> #[trigger] self.blocks[i].parent < i
        &&& forall|i: int, j: int|
            #![trigger self.blocks[i].key, self.blocks[j].key]
            0 <= i < self.blocks.len() && 0 <= j < self.blocks.len() && self.blocks[i].key
                == self.blocks[j].key ==> i == j
        &&& self.tip == best_of(self.blocks, self.blocks.len() as int)
        &&& self.active == ancestry(self.blocks, self.tip)
    }

    /// Height of the active tip.
    pub open spec fn height(self) -> int {
        self.active.len() - 1
    }
}

/// Block-header tree with its active chain.
pub struct BlockTree {
    blocks: Vec<Block>,
    tip: usize,
    active: Vec<BlockKey>,
}

impl View for BlockTree {
    type V = ChainView;

    closed spec fn view(&self) -> ChainView {
        ChainView { blocks: self.blocks@, tip: self.tip as int, active: self.active@ }
    }
}

impl BlockTree {
    /// A tree that holds only the genesis block, with no work.
    pub fn new(genesis: BlockKey) -> (r: Self)
        ensures
            r@.wf(),
            r@.blocks == seq![Block { key: genesis, parent: 0, total: 0 }],
            r@.active == seq![genesis],
    {
        let mut blocks: Vec<Block> = Vec::new();
        blocks.push(Block { key: genesis, parent: 0, total: 0 });
        let mut active: Vec<BlockKey> = Vec::new();
        active.push(genesis);
        let r = BlockTree { blocks, tip: 0, active };
        assert(r@.active =~= ancestry(r@.blocks, 0));
        r
    }

    /// Height of the active tip.
    pub fn height(&self) -> (r: u64)
        requires
            self@.wf(),
        ensures
            r == self@.height(),
    {
        proof {
            lemma_ancestry_len(self@.blocks, self@.tip);
        }
        (self.active.len() - 1) as u64
    }

    /// Key of the active tip.
    pub fn tip(&self) -> (r: BlockKey)
        requires
            self@.wf(),
        ensures
            r == self@.active.last(),
    {
        proof {
            lemma_ancestry_len(self@.blocks, self@.tip);
        }
        self.active[self.active.len() - 1]
    }

    /// Keys of the active chain, from genesis to the tip.
    pub fn active(&self) -> (r: &Vec<BlockKey>)
        ensures
            r@ == self@.active,
    {
        &self.active
    }

    /// Position of the block with key `key`, if stored.
    fn slot(&self, key: BlockKey) -> (r: Option<usize>)
        requires
            self@.wf(),
        ensures
            r is Some <==> stores(self@.blocks, key),
            r is Some ==> r->0 == slot_of(self@.blocks, key),
    {
        let mut i: usize = 0;
        while i < self.blocks.len()
            invariant
                0 <= i <= self.blocks.len(),
                self@.wf(),
                self@.blocks == self.blocks@,
                forall|k: int| 0 <= k < i ==> #[trigger] self@.blocks[k].key != key,
            decreases self.blocks.len() - i,
        {
            if self.blocks[i].key == key {
                proof {
                    let j = slot_of(self@.blocks, key);
                    assert(self@.blocks[i as int].key == key);
                    assert(stores(self@.blocks, key));
                    assert(self@.blocks[j].key == self@.blocks[i as int].key);
                }
                return Some(i);
            }
            i += 1;
        }
        None
    }

    /// Keys from genesis to the block at position `i` of `blocks`.
    fn ancestry_of(blocks: &Vec<Block>, i: usize) -> (r: Vec<BlockKey>)
        requires
            i < blocks@.len(),
            forall|k: int| 0 < k < blocks@.len() ==> #[trigger] blocks@[k].parent < k,
        ensures
            r@ == ancestry(blocks@, i as int),
    {
        let mut acc: Vec<BlockKey> = Vec::new();
        let mut cur = i;
        while cur > 0
            invariant
                cur < blocks@.len(),
                forall|k: int| 0 < k < blocks@.len() ==> #[trigger] blocks@[k].parent < k,
                ancestry(blocks@, i as int) == ancestry(blocks@, cur as int) + acc@,
            decreases cur,
        {
            let b = blocks[cur];
            let ghost before = acc@;
            acc.insert(0, b.key);
            assert(ancestry(blocks@, cur as int) == ancestry(blocks@, b.parent as int).push(b.key));
            assert(ancestry(blocks@, b.parent as int).push(b.key) + before =~= ancestry(
                blocks@,
                b.parent as int,
            ) + acc@);
            cur = b.parent;
        }
        let ghost before = acc@;
        acc.insert(0, blocks[0].key);
        assert(ancestry(blocks@, 0) + before =~= acc@);
        acc
    }

    /// The events from active chain `old` to `new`.
    fn events_between(old: &Vec<BlockKey>, new: &Vec<BlockKey>) -> (r: Vec<ChainEvent>)
        ensures
            r@ == reorg_events(old@, new@, shared_from(old@, new@, 0)),
    {
        let mut f: usize = 0;
        while f < old.len() && f < new.len() && old[f] == new[f]
            invariant
                0 <= f <= old@.len(),
                f <= new@.len(),
                shared_from(old@, new@, f as int) == shared_from(old@, new@, 0),
            decreases old@.len() - f,
        {
            f += 1;
        }
        let ghost fi = f as int;
        let mut r: Vec<ChainEvent> = Vec::new();
        let mut k: usize = old.len();
        while k > f
            invariant
                fi <= k <= old@.len(),
                fi <= new@.len(),
                fi == f,
                r@ =~= disconnections(old@, fi).take(old@.len() - k),
            decreases k,
        {
            k -= 1;
            r.push(ChainEvent::BlockDisconnected { key: old[k], height: k as u64 });
            assert(r@ =~= disconnections(old@, fi).take(old@.len() - k));
        }
        assert(r@ =~= disconnections(old@, fi));
        let ghost dis = r@;
        let mut h: usize = f;
        while h < new.len()
            invariant
                fi <= h <= new@.len(),
                fi == f,
                fi <= new@.len(),
                dis == disconnections(old@, fi),
                r@ =~= dis + connections(new@, fi).take(h - fi),
            decreases new@.len() - h,
        {
            r.push(ChainEvent::BlockConnected { key: new[h], height: h as u64 });
            h += 1;
            assert(r@ =~= dis + connections(new@, fi).take(h - fi));
        }
        assert(connections(new@, fi).take(new@.len() - fi) =~= connections(new@, fi));
        r
    }

    /// Import `headers` in order, as `import_all` says: the events of each
    /// import in turn, or the first refusal, with the headers before it kept.
    pub fn import_batch(&mut self, headers: &Vec<Header>) -> (r: Result<
        Vec<ChainEvent>,
        ImportError,
    >)
        requires
            old(self)@.wf(),
        ensures
            final(self)@.wf(),
            final(self)@ == import_all(old(self)@, headers@).0,
            match r {
                Ok(events) => import_all(old(self)@, headers@).1 == Ok::<
                    Seq<ChainEvent>,
                    ImportError,
                >(events@),
                Err(e) => import_all(old(self)@, headers@).1 == Err::<Seq<ChainEvent>, ImportError>(
                    e,
                ),
            },
    {
        let ghost v0 = self@;
        let mut events: Vec<ChainEvent> = Vec::new();
        let mut i: usize = 0;
        assert(headers@.take(0) =~= Seq::<Header>::empty());
        while i < headers.len()
            invariant
                0 <= i <= headers@.len(),
                self@.wf(),
                v0 == old(self)@,
                import_all(v0, headers@.take(i as int)) == (
                    self@,
                    Ok::<Seq<ChainEvent>, ImportError>(events@),
                ),
            decreases headers@.len() - i,
        {
            assert(headers@.take(i + 1).drop_last() =~= headers@.take(i as int));
            assert(headers@.take(i + 1).last() == headers@[i as int]);
            match self.import(headers[i]) {
                Ok(e) => {
                    let mut e = e;
                    events.append(&mut e);
                },
                Err(err) => {
                    proof {
                        lemma_import_all_stops(v0, headers@, i + 1);
                    }
                    return Err(err);
                },
            }
            i += 1;
        }
        assert(headers@.take(i as int) =~= headers@);
        Ok(events)
    }

    /// Import header `h`, as `import_spec` says.
    pub fn import(&mut self, h: Header) -> (r: Result<Vec<ChainEvent>, ImportError>)
        requires
            old(self)@.wf(),
        ensures
            final(self)@.wf(),
            final(self)@ == import_spec(old(self)@, h).0,
            match r {
                Ok(events) => import_spec(old(self)@, h).1 == Ok::<Seq<ChainEvent>, ImportError>(
                    events@,
                ),
                Err(e) => import_spec(old(self)@, h).1 == Err::<Seq<ChainEvent>, ImportError>(e),
            },
    {
        if self.slot(h.key).is_some() {
            return Ok(Vec::new());
        }
        let p = match self.slot(h.parent) {
            Some(p) => p,
            None => {
                return Err(ImportError::UnknownParent);
            },
        };
        let parent_total = self.blocks[p].total;
        if parent_total > u128::MAX - h.work as u128 {
            return Err(ImportError::WorkOverflow);
        }
        let block = Block { key: h.key, parent: p, total: parent_total + h.work as u128 };
        let ghost old_blocks = self@.blocks;
        let old_tip = self.tip;
        let n = self.blocks.len();
        self.blocks.push(block);
        proof {
            lemma_best_range(old_blocks, n as int);
            lemma_best_push(old_blocks, block, n as int);
            lemma_ancestry_push(old_blocks, block, old_tip as int);
        }
        let new_tip = if self.blocks[n].total > self.blocks[old_tip].total {
            n
        } else {
            old_tip
        };
        let new_active = BlockTree::ancestry_of(&self.blocks, new_tip);
        let events = BlockTree::events_between(&self.active, &new_active);
        self.tip = new_tip;
        self.active = new_active;
        proof {
            let nb = self@.blocks;
            assert forall|i: int, j: int|
                #![trigger nb[i].key, nb[j].key]
                0 <= i < nb.len() && 0 <= j < nb.len() && nb[i].key == nb[j].key implies i
                    == j by {
                if i < n && j < n {
                    assert(old_blocks[i].key == old_blocks[j].key);
                } else if i < n {
                    assert(old_blocks[i].key == h.key);
                } else if j < n {
                    assert(old_blocks[j].key == h.key);
                }
            }
        }
        Ok(events)
    }
}

} // verus!
