//! The paginated index: per-key buffers that flush into fixed-size pages,
//! and a finalize pass that computes totals and sibling links.  Keys are
//! free-text category, brand or country strings; pages live under a
//! sharded path derived from a slug of the key.
//!
//! Per key the state machine is: empty, buffering, flushed one or more
//! pages, finalized.  A page records its own items, its number and a
//! backward link; totals and forward links exist only after finalize,
//! which is idempotent.  Flushed pages stay in the key's state so that
//! the finalize pass can reproduce every page with its trailing metadata
//! backfilled; persisting the rendered pages and metadata is the
//! caller's concern.

use vstd::prelude::*;
use vstd::string::StringSliceAdditionalSpecFns;
use crate::entity::opt_view;
use crate::textutil::{eq_bytes, lower_byte, str_bytes};

verus! {

/// The smallest serializable unit: identifier, name, brand and the path
/// of the entity document.
#[derive(Debug)]
pub struct IndexItem {
    pub code: Vec<u8>,
    pub name: Option<Vec<u8>>,
    pub brand: Option<Vec<u8>>,
    pub path: Vec<u8>,
}

/// Ghost model of one item.
#[verifier::ext_equal]
pub struct ItemModel {
    pub code: Seq<u8>,
    pub name: Option<Seq<u8>>,
    pub brand: Option<Seq<u8>>,
    pub path: Seq<u8>,
}

pub open spec fn item_model(it: IndexItem) -> ItemModel {
    ItemModel { code: it.code@, name: opt_view(it.name), brand: opt_view(it.brand), path: it.path@ }
}

pub open spec fn items_model(v: Seq<IndexItem>) -> Seq<ItemModel> {
    Seq::new(v.len(), |i: int| item_model(v[i]))
}

/// Per-key state: the in-memory buffer and the pages already flushed
/// (page numbers are positions plus one).
#[derive(Debug)]
pub struct KeyState {
    pub key: Vec<u8>,
    pub buffer: Vec<IndexItem>,
    pub pages: Vec<Vec<IndexItem>>,
    pub total: u64,
}

/// Ghost model of one key's state.
#[verifier::ext_equal]
pub struct KeyModel {
    pub key: Seq<u8>,
    pub buffer: Seq<ItemModel>,
    pub pages: Seq<Seq<ItemModel>>,
    pub total: u64,
}

pub open spec fn key_model(ks: KeyState) -> KeyModel {
    KeyModel {
        key: ks.key@,
        buffer: items_model(ks.buffer@),
        pages: Seq::new(ks.pages@.len(), |i: int| items_model(ks.pages@[i]@)),
        total: ks.total,
    }
}

/// Ghost model of the whole index.
#[verifier::ext_equal]
pub struct IndexModel {
    pub page_size: nat,
    pub keys: Seq<KeyModel>,
}

/// The empty index at a given page size.
pub open spec fn empty_model(ps: nat) -> IndexModel {
    IndexModel { page_size: ps, keys: Seq::empty() }
}

/// Items of all flushed pages, summed.
pub open spec fn sum_lens(pages: Seq<Seq<ItemModel>>) -> nat
    decreases pages.len(),
{
    if pages.len() == 0 {
        0
    } else {
        sum_lens(pages.drop_last()) + pages.last().len()
    }
}

/// One item enters one key: the buffer grows, and flushes into a new
/// page exactly when it reaches the page size.
pub open spec fn key_add(k: KeyModel, ps: nat, it: ItemModel) -> KeyModel {
    let buf2 = k.buffer.push(it);
    let total2 = if k.total < u64::MAX {
        (k.total + 1) as u64
    } else {
        k.total
    };
    if buf2.len() == ps {
        KeyModel { key: k.key, buffer: Seq::empty(), pages: k.pages.push(buf2), total: total2 }
    } else {
        KeyModel { key: k.key, buffer: buf2, pages: k.pages, total: total2 }
    }
}

/// Add to the first key with this name, or append a fresh key.
pub open spec fn add_to_keys(keys: Seq<KeyModel>, ps: nat, key: Seq<u8>, it: ItemModel) -> Seq<
    KeyModel,
>
    decreases keys.len(),
{
    if keys.len() == 0 {
        seq![key_add(KeyModel { key, buffer: Seq::empty(), pages: Seq::empty(), total: 0 }, ps, it)]
    } else if keys[0].key == key {
        seq![key_add(keys[0], ps, it)] + keys.drop_first()
    } else {
        seq![keys[0]] + add_to_keys(keys.drop_first(), ps, key, it)
    }
}

pub open spec fn add_model(m: IndexModel, key: Seq<u8>, it: ItemModel) -> IndexModel {
    IndexModel { page_size: m.page_size, keys: add_to_keys(m.keys, m.page_size, key, it) }
}

/// A whole sequence of items for one key, folded in order.
pub open spec fn adds_model(m: IndexModel, key: Seq<u8>, items: Seq<ItemModel>) -> IndexModel
    decreases items.len(),
{
    if items.len() == 0 {
        m
    } else {
        add_model(adds_model(m, key, items.drop_last()), key, items.last())
    }
}

/// Flushing a key moves a non-empty residual buffer into one last page.
pub open spec fn flush_key_model(k: KeyModel) -> KeyModel {
    if k.buffer.len() == 0 {
        k
    } else {
        KeyModel { key: k.key, buffer: Seq::empty(), pages: k.pages.push(k.buffer), total: k.total }
    }
}

pub open spec fn flush_all_model(m: IndexModel) -> IndexModel {
    IndexModel {
        page_size: m.page_size,
        keys: Seq::new(m.keys.len(), |i: int| flush_key_model(m.keys[i])),
    }
}

/// A finalized page: number, links, totals and items.
#[verifier::ext_equal]
pub struct FinalPageModel {
    pub number: nat,
    pub prev: Option<nat>,
    pub next: Option<nat>,
    pub count: u64,
    pub total_pages: nat,
    pub items: Seq<ItemModel>,
}

/// A finalized key: slug, shard, totals and every page.
#[verifier::ext_equal]
pub struct FinalKeyModel {
    pub key: Seq<u8>,
    pub slug: Seq<u8>,
    pub shard: Seq<u8>,
    pub count: u64,
    pub total_pages: nat,
    pub pages: Seq<FinalPageModel>,
}

/// Slug: lowercase, non-alphanumeric runs collapsed to single hyphens,
/// no leading or trailing hyphen.
pub open spec fn slug_spec(s: Seq<u8>) -> Seq<u8>
    decreases s.len(),
{
    if s.len() == 0 {
        Seq::empty()
    } else {
        let p = slug_spec(s.drop_last());
        let b = lower_byte(s.last());
        if (97 <= b && b <= 122) || (48 <= b && b <= 57) {
            p.push(b)
        } else if p.len() == 0 || p.last() == 45 {
            p
        } else {
            p.push(45)
        }
    }
}

/// Trailing hyphen dropped (the collapse above never doubles them).
pub open spec fn slug_trim_spec(s: Seq<u8>) -> Seq<u8> {
    let p = slug_spec(s);
    if p.len() > 0 && p.last() == 45 {
        p.drop_last()
    } else {
        p
    }
}

/// The shard directory: the first two slug bytes, or a fixed sentinel
/// for very short slugs.
pub open spec fn shard_spec(slug: Seq<u8>) -> Seq<u8> {
    if slug.len() >= 2 {
        slug.subrange(0, 2)
    } else {
        "00".spec_bytes()
    }
}

/// What finalize computes for one key.
pub open spec fn final_key_model(k: KeyModel) -> FinalKeyModel {
    let kf = flush_key_model(k);
    let tp = kf.pages.len();
    FinalKeyModel {
        key: k.key,
        slug: slug_trim_spec(k.key),
        shard: shard_spec(slug_trim_spec(k.key)),
        count: k.total,
        total_pages: tp,
        pages: Seq::new(
            tp as nat,
            |i: int|
                FinalPageModel {
                    number: (i + 1) as nat,
                    prev: if i == 0 {
                        None
                    } else {
                        Some(i as nat)
                    },
                    next: if i + 1 < tp {
                        Some((i + 2) as nat)
                    } else {
                        None
                    },
                    count: k.total,
                    total_pages: tp,
                    items: kf.pages[i],
                },
        ),
    }
}

/// What finalize returns for the whole index, in key insertion order.
pub open spec fn finalize_model(m: IndexModel) -> Seq<FinalKeyModel> {
    Seq::new(m.keys.len(), |i: int| final_key_model(m.keys[i]))
}

/// Flushing is idempotent, so a second finalize reproduces the first
/// one's output exactly: byte-identical pages and metadata, since every
/// rendering is a function of this output alone.
pub proof fn lemma_finalize_idempotent(m: IndexModel)
    ensures
        flush_all_model(flush_all_model(m)) == flush_all_model(m),
        finalize_model(flush_all_model(m)) == finalize_model(m),
{
    assert forall|i: int| 0 <= i < m.keys.len() implies flush_key_model(
        flush_key_model(m.keys[i]),
    ) == flush_key_model(m.keys[i]) by {}
    assert(flush_all_model(flush_all_model(m)) =~~= flush_all_model(m));
    assert forall|i: int| 0 <= i < m.keys.len() implies final_key_model(
        flush_key_model(m.keys[i]),
    ) == final_key_model(m.keys[i]) by {
        let k = m.keys[i];
        assert(flush_key_model(flush_key_model(k)) == flush_key_model(k));
        assert(final_key_model(flush_key_model(k)) =~~= final_key_model(k));
    }
    assert(finalize_model(flush_all_model(m)) =~~= finalize_model(m));
}

/// The state after adding `j` of the items of one key into a fresh index.
pub open spec fn fresh_key_state(ps: nat, key: Seq<u8>, items: Seq<ItemModel>) -> IndexModel {
    adds_model(empty_model(ps), key, items)
}

proof fn lemma_adds_fresh(ps: nat, key: Seq<u8>, items: Seq<ItemModel>)
    requires
        1 <= items.len() <= ps,
        ps < u64::MAX,
    ensures
        fresh_key_state(ps, key, items).page_size == ps,
        fresh_key_state(ps, key, items).keys == (if items.len() < ps {
            seq![
                KeyModel {
                    key,
                    buffer: items,
                    pages: Seq::<Seq<ItemModel>>::empty(),
                    total: items.len() as u64,
                },
            ]
        } else {
            seq![
                KeyModel {
                    key,
                    buffer: Seq::<ItemModel>::empty(),
                    pages: seq![items],
                    total: items.len() as u64,
                },
            ]
        }),
    decreases items.len(),
{
    if items.len() == 1 {
        let fresh = KeyModel {
            key,
            buffer: Seq::<ItemModel>::empty(),
            pages: Seq::<Seq<ItemModel>>::empty(),
            total: 0,
        };
        assert(adds_model(empty_model(ps), key, items.drop_last()) == empty_model(ps)) by {
            assert(items.drop_last().len() == 0);
        }
        assert(fresh_key_state(ps, key, items) == add_model(
            empty_model(ps),
            key,
            items.last(),
        ));
        assert(fresh.buffer.push(items.last()) =~= items);
        if items.len() < ps {
            assert(fresh_key_state(ps, key, items).keys =~~= seq![
                KeyModel {
                    key,
                    buffer: items,
                    pages: Seq::<Seq<ItemModel>>::empty(),
                    total: items.len() as u64,
                },
            ]);
        } else {
            assert(fresh_key_state(ps, key, items).keys =~~= seq![
                KeyModel {
                    key,
                    buffer: Seq::<ItemModel>::empty(),
                    pages: seq![items],
                    total: items.len() as u64,
                },
            ]);
        }
    } else {
        let pre = items.drop_last();
        lemma_adds_fresh(ps, key, pre);
        let m1 = fresh_key_state(ps, key, pre);
        assert(fresh_key_state(ps, key, items) == add_model(m1, key, items.last()));
        assert(m1.keys.len() == 1);
        assert(m1.keys[0].key == key);
        assert(add_to_keys(m1.keys, ps, key, items.last()) =~= seq![
            key_add(m1.keys[0], ps, items.last()),
        ]);
        assert(pre.push(items.last()) =~= items);
        if items.len() < ps {
            assert(fresh_key_state(ps, key, items).keys =~~= seq![
                KeyModel {
                    key,
                    buffer: items,
                    pages: Seq::<Seq<ItemModel>>::empty(),
                    total: items.len() as u64,
                },
            ]);
        } else {
            assert(fresh_key_state(ps, key, items).keys =~~= seq![
                KeyModel {
                    key,
                    buffer: Seq::<ItemModel>::empty(),
                    pages: seq![items],
                    total: items.len() as u64,
                },
            ]);
        }
    }
}

/// Adding exactly `page_size` items to one key of a fresh index and
/// finalizing produces a single page holding those items, with a total
/// of one page, no forward link, and a count of `page_size`.
pub proof fn lemma_exact_page(ps: nat, key: Seq<u8>, items: Seq<ItemModel>)
    requires
        1 <= ps < u64::MAX,
        items.len() == ps,
    ensures
        ({
            let out = finalize_model(fresh_key_state(ps, key, items));
            &&& out.len() == 1
            &&& out[0].total_pages == 1
            &&& out[0].count == ps
            &&& out[0].pages.len() == 1
            &&& out[0].pages[0].items == items
            &&& out[0].pages[0].next is None
            &&& out[0].pages[0].prev is None
        }),
{
    lemma_adds_fresh(ps, key, items);
    let m = fresh_key_state(ps, key, items);
    let k = m.keys[0];
    assert(flush_key_model(k) == k);
    assert(finalize_model(m)[0] == final_key_model(k));
}

/// Adding `page_size + 1` items produces two pages: the first full page
/// links forward to the second, the second links back to the first, and
/// the metadata count is `page_size + 1`.
pub proof fn lemma_overflow_page(ps: nat, key: Seq<u8>, items: Seq<ItemModel>)
    requires
        1 <= ps,
        ps + 1 < u64::MAX,
        items.len() == ps + 1,
    ensures
        ({
            let out = finalize_model(fresh_key_state(ps, key, items));
            &&& out.len() == 1
            &&& out[0].total_pages == 2
            &&& out[0].count == ps + 1
            &&& out[0].pages.len() == 2
            &&& out[0].pages[0].items == items.take(ps as int)
            &&& out[0].pages[1].items == items.skip(ps as int)
            &&& out[0].pages[0].next == Some(2nat)
            &&& out[0].pages[1].prev == Some(1nat)
            &&& out[0].pages[1].next is None
        }),
{
    let pre = items.drop_last();
    lemma_adds_fresh(ps, key, pre);
    let m1 = fresh_key_state(ps, key, pre);
    assert(m1.keys.len() == 1 && m1.keys[0].key == key);
    let m = fresh_key_state(ps, key, items);
    assert(m == add_model(m1, key, items.last()));
    assert(add_to_keys(m1.keys, ps, key, items.last()) =~= seq![
        key_add(m1.keys[0], ps, items.last()),
    ]);
    let k = m.keys[0];
    let kf = flush_key_model(k);
    if ps == 1 {
        // The overflowing item itself fills a page at once.
        assert(m1.keys[0].buffer =~= Seq::<ItemModel>::empty());
        assert(m1.keys[0].buffer.push(items.last()) =~= seq![items.last()]);
        assert(k.buffer =~= Seq::<ItemModel>::empty());
        assert(k.pages =~= seq![pre, seq![items.last()]]);
        assert(kf == k);
    } else {
        assert(k.buffer =~= seq![items.last()]);
        assert(k.pages =~= seq![pre]);
        assert(kf.pages =~= seq![pre, seq![items.last()]]);
    }
    assert(k.total == ps + 1);
    assert(kf.pages =~= seq![pre, seq![items.last()]]);
    assert(pre =~= items.take(ps as int));
    assert(seq![items.last()] =~= items.skip(ps as int));
    assert(finalize_model(m)[0] == final_key_model(k));
}

/// The documented invariant of the index: for every key, the running
/// total equals the buffered items plus the items of all flushed pages.
pub open spec fn key_inv(k: KeyModel) -> bool {
    k.total as nat == k.buffer.len() + sum_lens(k.pages)
}

/// Adding one item preserves the invariant while the total has room.
pub proof fn lemma_add_preserves_inv(k: KeyModel, ps: nat, it: ItemModel)
    requires
        key_inv(k),
        k.total < u64::MAX,
    ensures
        key_inv(key_add(k, ps, it)),
{
    let buf2 = k.buffer.push(it);
    if buf2.len() == ps {
        assert(sum_lens(k.pages.push(buf2)) == sum_lens(k.pages) + buf2.len()) by {
            assert(k.pages.push(buf2).drop_last() =~= k.pages);
        }
    }
}

/// Flushing preserves the invariant.
pub proof fn lemma_flush_preserves_inv(k: KeyModel)
    requires
        key_inv(k),
    ensures
        key_inv(flush_key_model(k)),
{
    if k.buffer.len() > 0 {
        assert(sum_lens(k.pages.push(k.buffer)) == sum_lens(k.pages) + k.buffer.len()) by {
            assert(k.pages.push(k.buffer).drop_last() =~= k.pages);
        }
    }
}

/// The metadata of a finalized key counts exactly the items of its
/// flushed pages.
pub proof fn lemma_meta_count_is_page_sum(k: KeyModel)
    requires
        key_inv(k),
    ensures
        final_key_model(k).count as nat == sum_lens(flush_key_model(k).pages),
{
    lemma_flush_preserves_inv(k);
}

/// The paginated index as executable state.
#[derive(Debug)]
pub struct PaginatedIndex {
    pub page_size: usize,
    pub keys: Vec<KeyState>,
}

/// One finalized page, ready to be written.
#[derive(Debug)]
pub struct FinalPage {
    pub number: usize,
    pub prev_page: Option<usize>,
    pub next_page: Option<usize>,
    pub count: u64,
    pub total_pages: usize,
    pub items: Vec<IndexItem>,
}

/// One finalized key with its metadata and pages.
#[derive(Debug)]
pub struct FinalizedKey {
    pub key: Vec<u8>,
    pub slug: Vec<u8>,
    pub shard: Vec<u8>,
    pub count: u64,
    pub total_pages: usize,
    pub page_size: usize,
    pub pages: Vec<FinalPage>,
}

pub open spec fn opt_usize_model(o: Option<usize>) -> Option<nat> {
    match o {
        None => None,
        Some(x) => Some(x as nat),
    }
}

pub open spec fn fp_model(p: FinalPage) -> FinalPageModel {
    FinalPageModel {
        number: p.number as nat,
        prev: opt_usize_model(p.prev_page),
        next: opt_usize_model(p.next_page),
        count: p.count,
        total_pages: p.total_pages as nat,
        items: items_model(p.items@),
    }
}

pub open spec fn fk_model(f: FinalizedKey) -> FinalKeyModel {
    FinalKeyModel {
        key: f.key@,
        slug: f.slug@,
        shard: f.shard@,
        count: f.count,
        total_pages: f.total_pages as nat,
        pages: Seq::new(f.pages@.len(), |i: int| fp_model(f.pages@[i])),
    }
}

/// Duplicate one item.
fn dup_item(it: &IndexItem) -> (r: IndexItem)
    ensures
        item_model(r) == item_model(*it),
{
    IndexItem {
        code: vstd::slice::slice_to_vec(it.code.as_slice()),
        name: match &it.name {
            Some(v) => Some(vstd::slice::slice_to_vec(v.as_slice())),
            None => None,
        },
        brand: match &it.brand {
            Some(v) => Some(vstd::slice::slice_to_vec(v.as_slice())),
            None => None,
        },
        path: vstd::slice::slice_to_vec(it.path.as_slice()),
    }
}

/// Duplicate a list of items.
fn dup_items(v: &Vec<IndexItem>) -> (r: Vec<IndexItem>)
    ensures
        items_model(r@) == items_model(v@),
{
    let mut r: Vec<IndexItem> = Vec::new();
    let n = v.len();
    let mut i: usize = 0;
    while i < n
        invariant
            n == v@.len(),
            0 <= i <= n,
            r@.len() == i,
            forall|j: int| 0 <= j < i ==> item_model(#[trigger] r@[j]) == item_model(v@[j]),
        decreases n - i,
    {
        r.push(dup_item(&v[i]));
        i += 1;
    }
    proof {
        assert(items_model(r@) =~~= items_model(v@));
    }
    r
}

/// Slug of a key, as executable code.
pub fn slug_of(key: &[u8]) -> (r: Vec<u8>)
    ensures
        r@ == slug_trim_spec(key@),
{
    let n = key.len();
    let mut p: Vec<u8> = Vec::new();
    let mut i: usize = 0;
    while i < n
        invariant
            n == key@.len(),
            0 <= i <= n,
            p@ == slug_spec(key@.subrange(0, i as int)),
        decreases n - i,
    {
        proof {
            assert(key@.subrange(0, i + 1).drop_last() =~= key@.subrange(0, i as int));
            assert(key@.subrange(0, i + 1).last() == key@[i as int]);
        }
        let b0 = key[i];
        let b = if 65 <= b0 && b0 <= 90 {
            b0 + 32
        } else {
            b0
        };
        if (97 <= b && b <= 122) || (48 <= b && b <= 57) {
            p.push(b);
        } else if p.len() > 0 {
            let last = p[p.len() - 1];
            if last != 45 {
                p.push(45);
            }
        }
        i += 1;
    }
    proof {
        assert(key@.subrange(0, n as int) =~= key@);
    }
    if p.len() > 0 && p[p.len() - 1] == 45 {
        let _ = p.pop();
        proof {
            assert(p@ =~= slug_spec(key@).drop_last());
        }
    }
    p
}

/// Shard of a slug.
pub fn shard_of(slug: &[u8]) -> (r: Vec<u8>)
    ensures
        r@ == shard_spec(slug@),
{
    if slug.len() >= 2 {
        let mut r: Vec<u8> = Vec::new();
        r.push(slug[0]);
        r.push(slug[1]);
        proof {
            assert(r@ =~= slug@.subrange(0, 2));
        }
        r
    } else {
        str_bytes("00")
    }
}

impl PaginatedIndex {
    /// The abstract state.
    pub open spec fn model(&self) -> IndexModel {
        IndexModel {
            page_size: self.page_size as nat,
            keys: Seq::new(self.keys@.len(), |i: int| key_model(self.keys@[i])),
        }
    }

    /// Well-formedness: pages flush as soon as they fill, so no buffer
    /// ever holds a full page.
    pub open spec fn wf(&self) -> bool {
        &&& self.page_size >= 1
        &&& forall|i: int|
            0 <= i < self.keys@.len() ==> (#[trigger] self.keys@[i]).buffer@.len()
                < self.page_size
    }

    /// A fresh index.
    pub fn new(page_size: usize) -> (r: PaginatedIndex)
        requires
            page_size >= 1,
        ensures
            r.wf(),
            r.model() == empty_model(page_size as nat),
    {
        let r = PaginatedIndex { page_size, keys: Vec::new() };
        proof {
            assert(r.model() =~~= empty_model(page_size as nat));
        }
        r
    }

    /// Append one item to one key's buffer, flushing a full page.
    pub fn add(&mut self, key: &[u8], item: IndexItem)
        requires
            old(self).wf(),
        ensures
            final(self).wf(),
            final(self).page_size == old(self).page_size,
            final(self).model() == add_model(old(self).model(), key@, item_model(item)),
    {
        let ghost m0 = self.model();
        let n = self.keys.len();
        let mut i: usize = 0;
        proof {
            assert(m0.keys.skip(0) =~= m0.keys);
        }
        while i < n
            invariant
                n == self.keys@.len(),
                0 <= i <= n,
                *self == *old(self),
                old(self).wf(),
                m0 == self.model(),
                forall|j: int| 0 <= j < i ==> (#[trigger] m0.keys[j]).key != key@,
            decreases n - i,
        {
            if eq_bytes(self.keys[i].key.as_slice(), key) {
                proof {
                    lemma_add_skip(m0.keys, m0.page_size, key@, item_model(item), i as int);
                    assert(m0.keys.skip(i as int)[0] == m0.keys[i as int]);
                    assert(m0.keys.skip(i as int).drop_first() =~= m0.keys.skip(i + 1));
                }
                proof {
                    assert(self.keys@[i as int].buffer@.len() < self.page_size);
                }
                let ks = self.keys.remove(i);
                let ks2 = key_state_add(ks, self.page_size, item);
                self.keys.insert(i, ks2);
                proof {
                    assert(self.keys@ =~= old(self).keys@.update(i as int, ks2));
                    assert(self.wf());
                    assert(self.model().keys =~~= add_to_keys(
                        m0.keys,
                        m0.page_size,
                        key@,
                        item_model(item),
                    ));
                    assert(self.model() =~~= add_model(m0, key@, item_model(item)));
                }
                return ;
            }
            i += 1;
        }
        proof {
            lemma_add_skip(m0.keys, m0.page_size, key@, item_model(item), n as int);
            assert(m0.keys.skip(n as int) =~= Seq::<KeyModel>::empty());
        }
        let fresh = KeyState {
            key: vstd::slice::slice_to_vec(key),
            buffer: Vec::new(),
            pages: Vec::new(),
            total: 0,
        };
        proof {
            assert(key_model(fresh) =~~= KeyModel {
                key: key@,
                buffer: Seq::<ItemModel>::empty(),
                pages: Seq::<Seq<ItemModel>>::empty(),
                total: 0,
            });
        }
        let ks2 = key_state_add(fresh, self.page_size, item);
        self.keys.push(ks2);
        proof {
            assert(self.keys@ =~= old(self).keys@.push(ks2));
            assert(self.wf());
            assert(self.model().keys =~~= add_to_keys(
                m0.keys,
                m0.page_size,
                key@,
                item_model(item),
            ));
            assert(self.model() =~~= add_model(m0, key@, item_model(item)));
        }
    }

    /// Flush every residual buffer and compute totals, links, slugs and
    /// shards for every key.  The returned keys render the pages and the
    /// metadata; the index state keeps its flushed pages.
    pub fn finalize(&mut self) -> (out: Vec<FinalizedKey>)
        requires
            old(self).wf(),
        ensures
            final(self).wf(),
            final(self).model() == flush_all_model(old(self).model()),
            out@.len() == finalize_model(old(self).model()).len(),
            forall|k: int|
                0 <= k < out@.len() ==> fk_model(#[trigger] out@[k]) == finalize_model(
                    old(self).model(),
                )[k] && out@[k].page_size == old(self).page_size,
    {
        let ghost m0 = self.model();
        let mut out: Vec<FinalizedKey> = Vec::new();
        let n = self.keys.len();
        let mut i: usize = 0;
        while i < n
            invariant
                n == self.keys@.len(),
                0 <= i <= n,
                self.page_size == old(self).page_size,
                self.page_size >= 1,
                m0 == old(self).model(),
                n == m0.keys.len(),
                out@.len() == i,
                forall|j: int|
                    0 <= j < i ==> key_model(#[trigger] self.keys@[j]) == flush_key_model(
                        m0.keys[j],
                    ) && self.keys@[j].buffer@.len() == 0,
                forall|j: int|
                    i <= j < n ==> key_model(#[trigger] self.keys@[j]) == m0.keys[j]
                        && self.keys@[j].buffer@.len() < self.page_size,
                forall|k: int|
                    0 <= k < i ==> fk_model(#[trigger] out@[k]) == final_key_model(m0.keys[k])
                        && out@[k].page_size == self.page_size,
            decreases n - i,
        {
            let ks = self.keys.remove(i);
            let pair = finalize_key(ks, self.page_size);
            let ks2 = pair.0;
            let fk = pair.1;
            self.keys.insert(i, ks2);
            out.push(fk);
            i += 1;
        }
        proof {
            assert(final(self).model().keys =~~= flush_all_model(m0).keys);
            assert(final(self).model() =~~= flush_all_model(m0));
            assert(finalize_model(m0).len() == n);
        }
        out
    }
}

/// Skipping non-matching keys leaves the addition untouched.
proof fn lemma_add_skip(keys: Seq<KeyModel>, ps: nat, key: Seq<u8>, it: ItemModel, k: int)
    requires
        0 <= k <= keys.len(),
        forall|j: int| 0 <= j < k ==> (#[trigger] keys[j]).key != key,
    ensures
        add_to_keys(keys, ps, key, it) == keys.take(k) + add_to_keys(keys.skip(k), ps, key, it),
    decreases k,
{
    if k == 0 {
        assert(keys.skip(0) =~= keys);
        assert(keys.take(0) + add_to_keys(keys, ps, key, it) =~= add_to_keys(keys, ps, key, it));
    } else {
        lemma_add_skip(keys.drop_first(), ps, key, it, k - 1);
        assert(keys[0].key != key);
        assert(keys.drop_first().skip(k - 1) =~= keys.skip(k));
        assert(keys.drop_first().take(k - 1) =~= keys.take(k).drop_first());
        assert(add_to_keys(keys, ps, key, it) =~= keys.take(k) + add_to_keys(
            keys.skip(k),
            ps,
            key,
            it,
        ));
    }
}

/// Push one item into one key's state.
fn key_state_add(ks: KeyState, page_size: usize, item: IndexItem) -> (r: KeyState)
    requires
        page_size >= 1,
        ks.buffer@.len() < page_size,
    ensures
        key_model(r) == key_add(key_model(ks), page_size as nat, item_model(item)),
        r.buffer@.len() < page_size,
        r.key@ == ks.key@,
{
    let mut ks = ks;
    let ghost k0 = key_model(ks);
    ks.buffer.push(item);
    if ks.total < u64::MAX {
        ks.total = ks.total + 1;
    }
    proof {
        assert(items_model(ks.buffer@) =~~= k0.buffer.push(item_model(item)));
    }
    if ks.buffer.len() == page_size {
        let buf = ks.buffer;
        ks.buffer = Vec::new();
        ks.pages.push(buf);
        proof {
            assert(items_model(ks.buffer@) =~~= Seq::<ItemModel>::empty());
            assert(key_model(ks).pages =~~= k0.pages.push(k0.buffer.push(item_model(item))));
            assert(key_model(ks) =~~= key_add(k0, page_size as nat, item_model(item)));
        }
    } else {
        proof {
            assert(key_model(ks).pages =~~= k0.pages);
            assert(key_model(ks) =~~= key_add(k0, page_size as nat, item_model(item)));
        }
    }
    ks
}

/// Flush one key and build its finalized form.
fn finalize_key(ks: KeyState, page_size: usize) -> (r: (KeyState, FinalizedKey))
    requires
        page_size >= 1,
        ks.buffer@.len() < page_size,
    ensures
        key_model(r.0) == flush_key_model(key_model(ks)),
        r.0.buffer@.len() == 0,
        fk_model(r.1) == final_key_model(key_model(ks)),
        r.1.page_size == page_size,
{
    let ghost k0 = key_model(ks);
    let mut ks = ks;
    if ks.buffer.len() > 0 {
        let buf = ks.buffer;
        ks.buffer = Vec::new();
        ks.pages.push(buf);
        proof {
            assert(items_model(ks.buffer@) =~~= Seq::<ItemModel>::empty());
            assert(key_model(ks).pages =~~= k0.pages.push(k0.buffer));
            assert(key_model(ks) =~~= flush_key_model(k0));
        }
    } else {
        proof {
            assert(k0.buffer =~~= Seq::<ItemModel>::empty());
            assert(key_model(ks) =~~= flush_key_model(k0));
        }
    }
    let ghost kf = flush_key_model(k0);
    let slug = slug_of(ks.key.as_slice());
    let shard = shard_of(slug.as_slice());
    let tp = ks.pages.len();
    let mut pages: Vec<FinalPage> = Vec::new();
    let mut j: usize = 0;
    while j < tp
        invariant
            tp == ks.pages@.len(),
            key_model(ks) == kf,
            0 <= j <= tp,
            pages@.len() == j,
            forall|x: int|
                0 <= x < j ==> fp_model(#[trigger] pages@[x]) == (FinalPageModel {
                    number: (x + 1) as nat,
                    prev: if x == 0 {
                        None
                    } else {
                        Some(x as nat)
                    },
                    next: if x + 1 < tp {
                        Some((x + 2) as nat)
                    } else {
                        None
                    },
                    count: ks.total,
                    total_pages: tp as nat,
                    items: kf.pages[x],
                }),
        decreases tp - j,
    {
        let items = dup_items(&ks.pages[j]);
        let fp = FinalPage {
            number: j + 1,
            prev_page: if j == 0 {
                None
            } else {
                Some(j)
            },
            next_page: if j + 1 < tp {
                Some(j + 2)
            } else {
                None
            },
            count: ks.total,
            total_pages: tp,
            items,
        };
        proof {
            assert(items_model(fp.items@) == kf.pages[j as int]);
        }
        pages.push(fp);
        j += 1;
    }
    let fk = FinalizedKey {
        key: vstd::slice::slice_to_vec(ks.key.as_slice()),
        slug,
        shard,
        count: ks.total,
        total_pages: tp,
        page_size,
        pages,
    };
    proof {
        assert(fk_model(fk).pages =~~= final_key_model(k0).pages);
        assert(fk_model(fk) =~~= final_key_model(k0));
    }
    (ks, fk)
}

/// A page number padded with zeros to at least four digits.
pub open spec fn pad4_spec(n: nat) -> Seq<u8> {
    let ds = crate::num::digits_rep(n);
    if ds.len() >= 4 {
        ds
    } else {
        crate::num::zeros((4 - ds.len()) as nat) + ds
    }
}

pub fn pad4(n: u64) -> (r: Vec<u8>)
    ensures
        r@ == pad4_spec(n as nat),
{
    let ds = crate::num::digits_of_u64(n);
    let mut r: Vec<u8> = Vec::new();
    if ds.len() < 4 {
        let k = 4 - ds.len();
        let mut z: usize = 0;
        while z < k
            invariant
                0 <= z <= k <= 4,
                r@ =~= crate::num::zeros(z as nat),
            decreases k - z,
        {
            r.push(48);
            z += 1;
        }
    }
    crate::textutil::push_all(&mut r, ds.as_slice());
    proof {
        assert(r@ == pad4_spec(n as nat));
    }
    r
}

/// Relative path of one page file: `<shard>/<slug>/page-XXXX.json`.
pub open spec fn page_path_spec(shard: Seq<u8>, slug: Seq<u8>, number: nat) -> Seq<u8> {
    crate::json::concat_all(
        seq![
            shard,
            "/".spec_bytes(),
            slug,
            "/page-".spec_bytes(),
            pad4_spec(number),
            ".json".spec_bytes(),
        ],
    )
}

/// Relative path of one key's metadata file: `<shard>/<slug>/_meta.json`.
pub open spec fn meta_path_spec(shard: Seq<u8>, slug: Seq<u8>) -> Seq<u8> {
    crate::json::concat_all(seq![shard, "/".spec_bytes(), slug, "/_meta.json".spec_bytes()])
}

pub fn page_path(shard: &[u8], slug: &[u8], number: u64) -> (r: Vec<u8>)
    ensures
        r@ == page_path_spec(shard@, slug@, number as nat),
{
    let mut parts: Vec<Vec<u8>> = Vec::new();
    parts.push(vstd::slice::slice_to_vec(shard));
    parts.push(str_bytes("/"));
    parts.push(vstd::slice::slice_to_vec(slug));
    parts.push(str_bytes("/page-"));
    parts.push(pad4(number));
    parts.push(str_bytes(".json"));
    let r = crate::json::join_parts(&parts);
    proof {
        assert(crate::json::parts_views(parts@) =~= seq![
            shard@,
            "/".spec_bytes(),
            slug@,
            "/page-".spec_bytes(),
            pad4_spec(number as nat),
            ".json".spec_bytes(),
        ]);
    }
    r
}

pub fn meta_path(shard: &[u8], slug: &[u8]) -> (r: Vec<u8>)
    ensures
        r@ == meta_path_spec(shard@, slug@),
{
    let mut parts: Vec<Vec<u8>> = Vec::new();
    parts.push(vstd::slice::slice_to_vec(shard));
    parts.push(str_bytes("/"));
    parts.push(vstd::slice::slice_to_vec(slug));
    parts.push(str_bytes("/_meta.json"));
    let r = crate::json::join_parts(&parts);
    proof {
        assert(crate::json::parts_views(parts@) =~= seq![
            shard@,
            "/".spec_bytes(),
            slug@,
            "/_meta.json".spec_bytes(),
        ]);
    }
    r
}

/// JSON of an optional page link.
pub open spec fn opt_nat_json(o: Option<nat>) -> Seq<u8> {
    match o {
        None => crate::json::json_null(),
        Some(x) => crate::num::digits_rep(x),
    }
}

fn opt_link_bytes(o: &Option<usize>) -> (r: Vec<u8>)
    ensures
        r@ == opt_nat_json(opt_usize_model(*o)),
{
    match o {
        None => {
            let mut out: Vec<u8> = Vec::new();
            crate::json::push_null(&mut out);
            out
        },
        Some(x) => crate::num::digits_of_u64(*x as u64),
    }
}

/// JSON of one index item.
pub open spec fn item_json_spec(it: ItemModel) -> Seq<u8> {
    crate::json::concat_all(
        seq![
            "{\"code\":".spec_bytes(),
            crate::json::json_string(it.code),
            ",\"name\":".spec_bytes(),
            crate::json::json_opt_string(it.name),
            ",\"brand\":".spec_bytes(),
            crate::json::json_opt_string(it.brand),
            ",\"path\":".spec_bytes(),
            crate::json::json_string(it.path),
            "}".spec_bytes(),
        ],
    )
}

fn item_json(it: &IndexItem) -> (r: Vec<u8>)
    ensures
        r@ == item_json_spec(item_model(*it)),
{
    let mut parts: Vec<Vec<u8>> = Vec::new();
    parts.push(str_bytes("{\"code\":"));
    parts.push(crate::json::json_string_bytes(it.code.as_slice()));
    parts.push(str_bytes(",\"name\":"));
    parts.push(crate::json::json_opt_string_bytes(&it.name));
    parts.push(str_bytes(",\"brand\":"));
    parts.push(crate::json::json_opt_string_bytes(&it.brand));
    parts.push(str_bytes(",\"path\":"));
    parts.push(crate::json::json_string_bytes(it.path.as_slice()));
    parts.push(str_bytes("}"));
    let r = crate::json::join_parts(&parts);
    proof {
        assert(crate::json::parts_views(parts@) =~= seq![
            "{\"code\":".spec_bytes(),
            crate::json::json_string(it.code@),
            ",\"name\":".spec_bytes(),
            crate::json::json_opt_string(opt_view(it.name)),
            ",\"brand\":".spec_bytes(),
            crate::json::json_opt_string(opt_view(it.brand)),
            ",\"path\":".spec_bytes(),
            crate::json::json_string(it.path@),
            "}".spec_bytes(),
        ]);
    }
    r
}

/// The item list between the brackets, comma separated.
pub open spec fn items_inner_spec(items: Seq<ItemModel>) -> Seq<u8>
    decreases items.len(),
{
    if items.len() == 0 {
        Seq::empty()
    } else if items.len() == 1 {
        item_json_spec(items[0])
    } else {
        items_inner_spec(items.drop_last()) + seq![44u8] + item_json_spec(items.last())
    }
}

pub open spec fn items_array_spec(items: Seq<ItemModel>) -> Seq<u8> {
    seq![91u8] + items_inner_spec(items) + seq![93u8]
}

fn items_array(items: &Vec<IndexItem>) -> (r: Vec<u8>)
    ensures
        r@ == items_array_spec(items_model(items@)),
{
    let ghost im = items_model(items@);
    let mut out: Vec<u8> = Vec::new();
    out.push(91);
    let n = items.len();
    let mut k: usize = 0;
    while k < n
        invariant
            im == items_model(items@),
            n == items@.len(),
            0 <= k <= n,
            out@ == seq![91u8] + items_inner_spec(im.take(k as int)),
        decreases n - k,
    {
        proof {
            assert(im.take(k + 1).drop_last() =~= im.take(k as int));
            assert(im.take(k + 1).last() == im[k as int]);
            assert(im.take(1)[0] == im[0]);
        }
        if k > 0 {
            out.push(44);
        }
        let ij = item_json(&items[k]);
        crate::textutil::push_all(&mut out, ij.as_slice());
        proof {
            if k == 0 {
                assert(out@ =~= seq![91u8] + items_inner_spec(im.take(1)));
            } else {
                assert(out@ =~= seq![91u8] + (items_inner_spec(im.take(k as int)) + seq![44u8]
                    + item_json_spec(im[k as int])));
            }
        }
        k += 1;
    }
    out.push(93);
    proof {
        assert(im.take(n as int) =~= im);
        assert(out@ =~= items_array_spec(im));
    }
    out
}

/// JSON of one finalized page, links and totals included.
pub open spec fn page_json_spec(p: FinalPageModel) -> Seq<u8> {
    crate::json::concat_all(
        seq![
            "{\"page\":".spec_bytes(),
            crate::num::digits_rep(p.number),
            ",\"prev\":".spec_bytes(),
            opt_nat_json(p.prev),
            ",\"next\":".spec_bytes(),
            opt_nat_json(p.next),
            ",\"count\":".spec_bytes(),
            crate::num::digits_rep(p.count as nat),
            ",\"total_pages\":".spec_bytes(),
            crate::num::digits_rep(p.total_pages),
            ",\"items\":".spec_bytes(),
            items_array_spec(p.items),
            "}".spec_bytes(),
        ],
    )
}

/// Render one page.
pub fn page_json(p: &FinalPage) -> (r: Vec<u8>)
    ensures
        r@ == page_json_spec(fp_model(*p)),
{
    let mut parts: Vec<Vec<u8>> = Vec::new();
    parts.push(str_bytes("{\"page\":"));
    parts.push(crate::num::digits_of_u64(p.number as u64));
    parts.push(str_bytes(",\"prev\":"));
    parts.push(opt_link_bytes(&p.prev_page));
    parts.push(str_bytes(",\"next\":"));
    parts.push(opt_link_bytes(&p.next_page));
    parts.push(str_bytes(",\"count\":"));
    parts.push(crate::num::digits_of_u64(p.count));
    parts.push(str_bytes(",\"total_pages\":"));
    parts.push(crate::num::digits_of_u64(p.total_pages as u64));
    parts.push(str_bytes(",\"items\":"));
    parts.push(items_array(&p.items));
    parts.push(str_bytes("}"));
    let r = crate::json::join_parts(&parts);
    proof {
        assert(crate::json::parts_views(parts@) =~= seq![
            "{\"page\":".spec_bytes(),
            crate::num::digits_rep(p.number as nat),
            ",\"prev\":".spec_bytes(),
            opt_nat_json(opt_usize_model(p.prev_page)),
            ",\"next\":".spec_bytes(),
            opt_nat_json(opt_usize_model(p.next_page)),
            ",\"count\":".spec_bytes(),
            crate::num::digits_rep(p.count as nat),
            ",\"total_pages\":".spec_bytes(),
            crate::num::digits_rep(p.total_pages as nat),
            ",\"items\":".spec_bytes(),
            items_array_spec(items_model(p.items@)),
            "}".spec_bytes(),
        ]);
    }
    r
}

/// JSON of one key's metadata record.
pub open spec fn meta_json_spec(f: FinalKeyModel, ps: nat) -> Seq<u8> {
    crate::json::concat_all(
        seq![
            "{\"tag\":".spec_bytes(),
            crate::json::json_string(f.key),
            ",\"count\":".spec_bytes(),
            crate::num::digits_rep(f.count as nat),
            ",\"page_size\":".spec_bytes(),
            crate::num::digits_rep(ps),
            ",\"total_pages\":".spec_bytes(),
            crate::num::digits_rep(f.total_pages),
            "}".spec_bytes(),
        ],
    )
}

/// Render one key's metadata.
pub fn meta_json(f: &FinalizedKey) -> (r: Vec<u8>)
    ensures
        r@ == meta_json_spec(fk_model(*f), f.page_size as nat),
{
    let mut parts: Vec<Vec<u8>> = Vec::new();
    parts.push(str_bytes("{\"tag\":"));
    parts.push(crate::json::json_string_bytes(f.key.as_slice()));
    parts.push(str_bytes(",\"count\":"));
    parts.push(crate::num::digits_of_u64(f.count));
    parts.push(str_bytes(",\"page_size\":"));
    parts.push(crate::num::digits_of_u64(f.page_size as u64));
    parts.push(str_bytes(",\"total_pages\":"));
    parts.push(crate::num::digits_of_u64(f.total_pages as u64));
    parts.push(str_bytes("}"));
    let r = crate::json::join_parts(&parts);
    proof {
        assert(crate::json::parts_views(parts@) =~= seq![
            "{\"tag\":".spec_bytes(),
            crate::json::json_string(f.key@),
            ",\"count\":".spec_bytes(),
            crate::num::digits_rep(f.count as nat),
            ",\"page_size\":".spec_bytes(),
            crate::num::digits_rep(f.page_size as nat),
            ",\"total_pages\":".spec_bytes(),
            crate::num::digits_rep(f.total_pages as nat),
            "}".spec_bytes(),
        ]);
    }
    r
}

} // verus!

