//! The server's tables of boards, visitors and referees, each a `slab::Slab`,
//! and what the library relies on of that crate. What a table holds is named
//! once per kind of entry, since a name for it cannot be generic.
use vstd::prelude::*;
use slab::Slab;
use crate::board_info::BoardInfo;
use crate::referee_info::RefereeInfo;
use crate::visitor_info::VisitorInfo;

verus! {

#[verifier::external_type_specification]
#[verifier::external_body]
#[verifier::reject_recursive_types(T)]
pub struct ExSlab<T>(Slab<T>);

/// The boards that a board table holds, by key.
pub uninterp spec fn board_entries(table: Slab<BoardInfo>) -> Map<usize, BoardInfo>;

/// The visitors that a visitor table holds, by key.
pub uninterp spec fn visitor_entries(table: Slab<VisitorInfo>) -> Map<usize, VisitorInfo>;

/// The referees that a referee table holds, by key.
pub uninterp spec fn referee_entries(table: Slab<RefereeInfo>) -> Map<usize, RefereeInfo>;

/// `keys` lists the elements of `dom` in strictly increasing order.
pub open spec fn is_key_order(keys: Seq<usize>, dom: Set<usize>) -> bool {
    &&& forall|i: int, j: int| 0 <= i < j < keys.len() ==> keys[i] < keys[j]
    &&& forall|k: usize| dom.contains(k) <==> keys.contains(k)
}

/// The keys of `dom` in increasing order (where `dom` is finite).
pub open spec fn key_order(dom: Set<usize>) -> Seq<usize> {
    choose|keys: Seq<usize>| is_key_order(keys, dom)
}

/// Two increasing listings of one set are the same listing.
pub proof fn lemma_key_order_unique(a: Seq<usize>, b: Seq<usize>, dom: Set<usize>)
    requires
        is_key_order(a, dom),
        is_key_order(b, dom),
    ensures
        a == b,
    decreases a.len(),
{
    if a.len() == 0 {
        if b.len() > 0 {
            assert(b.contains(b[0]));
            assert(!a.contains(b[0]));
        }
        assert(a =~= b);
    } else {
        assert(a.contains(a[0]));
        assert(b.contains(a[0]));
        assert(b.len() > 0);
        assert(b.contains(b[0]));
        assert(a.contains(b[0]));
        let ia = choose|i: int| 0 <= i < a.len() && a[i] == b[0];
        let ib = choose|i: int| 0 <= i < b.len() && b[i] == a[0];
        assert(a[0] == b[0]) by {
            if a[0] < b[0] {
                assert(ib > 0);
                assert(b[0] < b[ib]);
            } else if a[0] > b[0] {
                assert(ia > 0);
                assert(a[0] < a[ia]);
            }
        }
        let rest = dom.remove(a[0]);
        let a1 = a.drop_first();
        let b1 = b.drop_first();
        assert forall|k: usize| rest.contains(k) <==> a1.contains(k) by {
            if a1.contains(k) {
                let i = choose|i: int| 0 <= i < a1.len() && a1[i] == k;
                assert(a[i + 1] == k);
                assert(a[0] < a[i + 1]);
            }
            if rest.contains(k) {
                assert(a.contains(k));
                let i = choose|i: int| 0 <= i < a.len() && a[i] == k;
                assert(i != 0);
                assert(a1[i - 1] == k);
            }
        }
        assert forall|k: usize| rest.contains(k) <==> b1.contains(k) by {
            if b1.contains(k) {
                let i = choose|i: int| 0 <= i < b1.len() && b1[i] == k;
                assert(b[i + 1] == k);
                assert(b[0] < b[i + 1]);
            }
            if rest.contains(k) {
                assert(b.contains(k));
                let i = choose|i: int| 0 <= i < b.len() && b[i] == k;
                assert(i != 0);
                assert(b1[i - 1] == k);
            }
        }
        assert forall|i: int, j: int| 0 <= i < j < a1.len() implies a1[i] < a1[j] by {
            assert(a[i + 1] < a[j + 1]);
        }
        assert forall|i: int, j: int| 0 <= i < j < b1.len() implies b1[i] < b1[j] by {
            assert(b[i + 1] < b[j + 1]);
        }
        lemma_key_order_unique(a1, b1, rest);
        assert(a =~= b) by {
            assert forall|i: int| 0 <= i < a.len() implies a[i] == b[i] by {
                if i > 0 {
                    assert(a[i] == a1[i - 1]);
                    assert(b[i] == b1[i - 1]);
                }
            }
        }
    }
}

/// A finite set of keys has a greatest key.
proof fn lemma_greatest_key(dom: Set<usize>) -> (m: usize)
    requires
        dom.finite(),
        dom.len() > 0,
    ensures
        dom.contains(m),
        forall|k: usize| dom.contains(k) ==> k <= m,
    decreases dom.len(),
{
    let x = dom.choose();
    let rest = dom.remove(x);
    if rest.len() == 0 {
        assert forall|k: usize| dom.contains(k) implies k <= x by {
            if k != x {
                assert(rest.contains(k));
            }
        }
        x
    } else {
        let m = lemma_greatest_key(rest);
        if m < x {
            x
        } else {
            m
        }
    }
}

/// Every finite set of keys can be listed in increasing order.
proof fn lemma_key_order_exists(dom: Set<usize>)
    requires
        dom.finite(),
    ensures
        exists|keys: Seq<usize>| is_key_order(keys, dom),
    decreases dom.len(),
{
    if dom.len() == 0 {
        assert(is_key_order(Seq::<usize>::empty(), dom)) by {
            assert forall|k: usize| dom.contains(k) <==> Seq::<usize>::empty().contains(k) by {
                if dom.contains(k) {
                    assert(dom.remove(k).len() < dom.len());
                }
            }
        }
    } else {
        let m = lemma_greatest_key(dom);
        let rest = dom.remove(m);
        lemma_key_order_exists(rest);
        let keys = choose|keys: Seq<usize>| is_key_order(keys, rest);
        let all = keys.push(m);
        assert forall|i: int, j: int| 0 <= i < j < all.len() implies all[i] < all[j] by {
            if j == keys.len() {
                assert(keys.contains(keys[i]));
                assert(rest.contains(keys[i]));
            } else {
                assert(all[i] == keys[i] && all[j] == keys[j]);
            }
        }
        assert forall|k: usize| dom.contains(k) <==> all.contains(k) by {
            if dom.contains(k) && k != m {
                assert(rest.contains(k));
                let i = choose|i: int| 0 <= i < keys.len() && keys[i] == k;
                assert(all[i] == k);
            }
            if dom.contains(k) && k == m {
                assert(all[keys.len() as int] == m);
            }
            if all.contains(k) {
                let i = choose|i: int| 0 <= i < all.len() && all[i] == k;
                if i < keys.len() {
                    assert(keys[i] == k);
                    assert(keys.contains(k));
                }
            }
        }
        assert(is_key_order(all, dom));
    }
}

/// The key order of a finite set lists exactly its keys, in increasing order.
pub proof fn law_key_order_lists_keys(dom: Set<usize>)
    requires
        dom.finite(),
    ensures
        is_key_order(key_order(dom), dom),
{
    lemma_key_order_exists(dom);
}

/// A listing in increasing order is the key order of its set.
pub proof fn lemma_key_order_is(keys: Seq<usize>, dom: Set<usize>)
    requires
        is_key_order(keys, dom),
    ensures
        key_order(dom) == keys,
{
    lemma_key_order_unique(key_order(dom), keys, dom);
}

// ---------------------------------------------------------------------------
// Board table
// ---------------------------------------------------------------------------

/// `Slab::new`: a table that holds no board.
#[verifier::external_body]
pub(crate) fn new_board_table() -> (table: Slab<BoardInfo>)
    ensures
        board_entries(table) =~= Map::empty(),
{
    Slab::new()
}

/// `Slab::insert`: stores the board under a key that was free, and returns
/// that key. Which free key it takes is not stated: it depends on the order
/// in which keys were freed, not only on what the table holds. Running out
/// of memory is not covered.
#[verifier::external_body]
pub(crate) fn insert_board(table: &mut Slab<BoardInfo>, board: BoardInfo) -> (key: usize)
    ensures
        !board_entries(*old(table)).dom().contains(key),
        board_entries(*final(table)) == board_entries(*old(table)).insert(key, board),
{
    table.insert(board)
}

/// `Slab::get`: the board stored under `key`, if any.
#[verifier::external_body]
pub(crate) fn get_board(table: &Slab<BoardInfo>, key: usize) -> (board: Option<&BoardInfo>)
    ensures
        match board {
            Some(b) => board_entries(*table).dom().contains(key) && *b == board_entries(
                *table,
            )[key],
            None => !board_entries(*table).dom().contains(key),
        },
{
    table.get(key)
}

/// `IndexMut` of `Slab`, assigned to: puts `board` in place of the board
/// stored under `key`; it panics where no board is stored there.
#[verifier::external_body]
pub(crate) fn replace_board(table: &mut Slab<BoardInfo>, key: usize, board: BoardInfo)
    requires
        board_entries(*old(table)).dom().contains(key),
    ensures
        board_entries(*final(table)) == board_entries(*old(table)).insert(key, board),
{
    table[key] = board;
}

/// `Slab::remove`: takes out the board stored under `key` and returns it;
/// it panics where no board is stored there.
#[verifier::external_body]
pub(crate) fn remove_board(table: &mut Slab<BoardInfo>, key: usize) -> (board: BoardInfo)
    requires
        board_entries(*old(table)).dom().contains(key),
    ensures
        board == board_entries(*old(table))[key],
        board_entries(*final(table)) == board_entries(*old(table)).remove(key),
{
    table.remove(key)
}

/// `Slab::iter`, keys only: the occupied keys, in increasing order.
#[verifier::external_body]
pub(crate) fn board_keys(table: &Slab<BoardInfo>) -> (keys: Vec<usize>)
    ensures
        is_key_order(keys@, board_entries(*table).dom()),
{
    table.iter().map(|(key, _)| key).collect()
}

// ---------------------------------------------------------------------------
// Visitor table
// ---------------------------------------------------------------------------

/// `Slab::new`: a table that holds no visitor.
#[verifier::external_body]
pub(crate) fn new_visitor_table() -> (table: Slab<VisitorInfo>)
    ensures
        visitor_entries(table) =~= Map::empty(),
{
    Slab::new()
}

/// `Slab::insert`: stores the visitor under a key that was free, and
/// returns that key. Which free key it takes is not stated (see
/// `insert_board`).
#[verifier::external_body]
pub(crate) fn insert_visitor(table: &mut Slab<VisitorInfo>, visitor: VisitorInfo) -> (key: usize)
    ensures
        !visitor_entries(*old(table)).dom().contains(key),
        visitor_entries(*final(table)) == visitor_entries(*old(table)).insert(key, visitor),
{
    table.insert(visitor)
}

/// `Index` of `Slab`: the visitor stored under `key`; it panics where no
/// visitor is stored there.
#[verifier::external_body]
pub(crate) fn visitor_at(table: &Slab<VisitorInfo>, key: usize) -> (visitor: VisitorInfo)
    requires
        visitor_entries(*table).dom().contains(key),
    ensures
        visitor == visitor_entries(*table)[key],
{
    table[key]
}

/// `Slab::iter`, keys only: the occupied keys, in increasing order.
#[verifier::external_body]
pub(crate) fn visitor_keys(table: &Slab<VisitorInfo>) -> (keys: Vec<usize>)
    ensures
        is_key_order(keys@, visitor_entries(*table).dom()),
{
    table.iter().map(|(key, _)| key).collect()
}

// ---------------------------------------------------------------------------
// Referee table
// ---------------------------------------------------------------------------

/// `Slab::new`: a table that holds no referee.
#[verifier::external_body]
pub(crate) fn new_referee_table() -> (table: Slab<RefereeInfo>)
    ensures
        referee_entries(table) =~= Map::empty(),
{
    Slab::new()
}

/// `Slab::insert`: stores the referee under a key that was free, and
/// returns that key. Which free key it takes is not stated (see
/// `insert_board`).
#[verifier::external_body]
pub(crate) fn insert_referee(table: &mut Slab<RefereeInfo>, referee: RefereeInfo) -> (key: usize)
    ensures
        !referee_entries(*old(table)).dom().contains(key),
        referee_entries(*final(table)) == referee_entries(*old(table)).insert(key, referee),
{
    table.insert(referee)
}

} // verus!
