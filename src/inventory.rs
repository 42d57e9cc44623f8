//! The player's cargo hold and purse.

use crate::text::{decimal, decimal_text};
use vstd::prelude::*;
use vstd::string::StringExecFns;

verus! {

/// A stack of one kind of item; stacks are told apart by `id`.
pub struct Item {
    pub id: String,
    pub name: String,
    pub quantity: usize,
    pub value: u32,
}

/// `f` summed over the items.
pub open spec fn sum_of(items: Seq<Item>, f: spec_fn(Item) -> nat) -> nat
    decreases items.len(),
{
    if items.len() == 0 {
        0
    } else {
        sum_of(items.drop_last(), f) + f(items.last())
    }
}

pub open spec fn quantity_of(i: Item) -> nat {
    i.quantity as nat
}

/// What a stack sells for: its unit value times its quantity.
pub open spec fn worth_of(i: Item) -> nat {
    (i.value * i.quantity) as nat
}

/// How many items the stacks hold together.
pub open spec fn total_quantity(items: Seq<Item>) -> nat {
    sum_of(items, |i: Item| quantity_of(i))
}

/// What the stacks sell for together.
pub open spec fn total_worth(items: Seq<Item>) -> nat {
    sum_of(items, |i: Item| worth_of(i))
}

/// The index of the first stack with identifier `id`, or -1.
pub open spec fn find_id(items: Seq<Item>, id: Seq<char>) -> int
    decreases items.len(),
{
    if items.len() == 0 {
        -1
    } else {
        let i = find_id(items.drop_last(), id);
        if i >= 0 {
            i
        } else if items.last().id@ == id {
            items.len() - 1
        } else {
            -1
        }
    }
}

/// The stack `it` with `more` items added to it.
pub open spec fn with_more(it: Item, more: usize) -> Item {
    Item { id: it.id, name: it.name, quantity: (it.quantity + more) as usize, value: it.value }
}

/// A stack as text: its name, a space, `x` and its quantity.
pub open spec fn item_text(i: Item) -> Seq<char> {
    i.name@ + seq![' ', 'x'] + decimal(i.quantity as nat)
}

/// The stacks as text, separated by commas.
pub open spec fn items_text(items: Seq<Item>) -> Seq<char>
    decreases items.len(),
{
    if items.len() == 0 {
        Seq::empty()
    } else if items.len() == 1 {
        item_text(items[0])
    } else {
        items_text(items.drop_last()) + seq![','] + item_text(items.last())
    }
}

proof fn lemma_sum_prefix(items: Seq<Item>, f: spec_fn(Item) -> nat, k: int)
    requires
        0 <= k < items.len(),
    ensures
        sum_of(items.subrange(0, k + 1), f) == sum_of(items.subrange(0, k), f) + f(items[k]),
        sum_of(items.subrange(0, k + 1), f) <= sum_of(items, f),
    decreases items.len(),
{
    assert(items.subrange(0, k + 1).drop_last() =~= items.subrange(0, k));
    if k + 1 < items.len() {
        lemma_sum_prefix(items.drop_last(), f, k);
        assert(items.drop_last().subrange(0, k + 1) =~= items.subrange(0, k + 1));
        assert(items.drop_last().subrange(0, k) =~= items.subrange(0, k));
    } else {
        assert(items.subrange(0, k + 1) =~= items);
    }
}

proof fn lemma_find_prefix(items: Seq<Item>, id: Seq<char>, k: int)
    requires
        0 <= k < items.len(),
        find_id(items.subrange(0, k), id) == -1,
    ensures
        find_id(items.subrange(0, k + 1), id) == if items[k].id@ == id {
            k
        } else {
            -1
        },
{
    assert(items.subrange(0, k + 1).drop_last() =~= items.subrange(0, k));
}

proof fn lemma_find_extends(items: Seq<Item>, id: Seq<char>, k: int)
    requires
        0 <= k <= items.len(),
        0 <= find_id(items.subrange(0, k), id),
    ensures
        find_id(items, id) == find_id(items.subrange(0, k), id),
    decreases items.len() - k,
{
    if k < items.len() {
        assert(items.subrange(0, k + 1).drop_last() =~= items.subrange(0, k));
        lemma_find_extends(items, id, k + 1);
    } else {
        assert(items.subrange(0, k) =~= items);
    }
}

proof fn lemma_sum_update(items: Seq<Item>, f: spec_fn(Item) -> nat, k: int, it: Item)
    requires
        0 <= k < items.len(),
    ensures
        sum_of(items.update(k, it), f) + f(items[k]) == sum_of(items, f) + f(it),
    decreases items.len(),
{
    if k < items.len() - 1 {
        lemma_sum_update(items.drop_last(), f, k, it);
        assert(items.update(k, it).drop_last() =~= items.drop_last().update(k, it));
    } else {
        assert(items.update(k, it).drop_last() =~= items.drop_last());
    }
}

proof fn lemma_sum_push(items: Seq<Item>, f: spec_fn(Item) -> nat, it: Item)
    ensures
        sum_of(items.push(it), f) == sum_of(items, f) + f(it),
{
    assert(items.push(it).drop_last() =~= items);
}

/// The hold: stacks of items, holding at most `capacity` items in all.
pub struct Inventory {
    items: Vec<Item>,
    capacity: usize,
}

/// The hold as a mathematical value.
pub struct InventoryModel {
    pub items: Seq<Item>,
    pub capacity: nat,
}

impl View for Inventory {
    type V = InventoryModel;

    closed spec fn view(&self) -> InventoryModel {
        InventoryModel { items: self.items@, capacity: self.capacity as nat }
    }
}

impl Inventory {
    /// The hold never holds more items than its capacity.
    pub open spec fn wf(&self) -> bool {
        total_quantity(self@.items) <= self@.capacity
    }

    /// An empty hold of the given capacity.
    pub fn with_capacity(capacity: usize) -> (r: Inventory)
        ensures
            r.wf(),
            r@.items.len() == 0,
            r@.capacity == capacity,
    {
        Inventory { items: Vec::new(), capacity }
    }

    pub fn capacity(&self) -> (r: usize)
        ensures
            r == self@.capacity,
    {
        self.capacity
    }

    /// The stacks, in the order they were first added.
    pub fn items(&self) -> (r: &Vec<Item>)
        ensures
            r@ == self@.items,
    {
        &self.items
    }

    pub fn is_empty(&self) -> (r: bool)
        ensures
            r == (self@.items.len() == 0),
    {
        self.items.len() == 0
    }

    /// How many items the hold holds.
    pub fn size(&self) -> (r: usize)
        requires
            self.wf(),
        ensures
            r == total_quantity(self@.items),
    {
        let ghost f = |i: Item| quantity_of(i);
        let mut total: usize = 0;
        let mut k: usize = 0;
        while k < self.items.len()
            invariant
                self.wf(),
                f == (|i: Item| quantity_of(i)),
                k <= self.items@.len(),
                total == sum_of(self.items@.subrange(0, k as int), f),
            decreases self.items@.len() - k,
        {
            proof {
                lemma_sum_prefix(self.items@, f, k as int);
            }
            total = total + self.items[k].quantity;
            k = k + 1;
        }
        proof {
            assert(self.items@.subrange(0, k as int) =~= self.items@);
        }
        total
    }

    /// Adds a stack when the hold has room for all of it: its quantity goes
    /// to the first stack with the same `id`, or it becomes a new stack at
    /// the end. Returns whether it was added; a full hold is left unchanged.
    pub fn add_item(&mut self, new_item: Item) -> (r: bool)
        requires
            old(self).wf(),
        ensures
            final(self).wf(),
            final(self)@.capacity == old(self)@.capacity,
            r == (total_quantity(old(self)@.items) + new_item.quantity <= old(self)@.capacity),
            !r ==> final(self)@ == old(self)@,
            r ==> ({
                let i = find_id(old(self)@.items, new_item.id@);
                if i >= 0 {
                    final(self)@.items == old(self)@.items.update(
                        i,
                        with_more(old(self)@.items[i], new_item.quantity),
                    )
                } else {
                    final(self)@.items == old(self)@.items.push(new_item)
                }
            }),
    {
        let size = self.size();
        if size > self.capacity || new_item.quantity > self.capacity - size {
            return false;
        }
        let ghost items0 = self.items@;
        let ghost cap = self.capacity;
        let mut k: usize = 0;
        while k < self.items.len()
            invariant
                self.items@ == items0,
                self.capacity == cap,
                items0 == old(self)@.items,
                cap == old(self)@.capacity,
                size == total_quantity(items0),
                size + new_item.quantity <= cap,
                k <= items0.len(),
                find_id(items0.subrange(0, k as int), new_item.id@) == -1,
            decreases items0.len() - k,
        {
            proof {
                lemma_find_prefix(items0, new_item.id@, k as int);
            }
            if self.items[k].id == new_item.id {
                proof {
                    lemma_find_extends(items0, new_item.id@, k as int + 1);
                    lemma_sum_prefix(items0, |i: Item| quantity_of(i), k as int);
                }
                let quantity = self.items[k].quantity + new_item.quantity;
                self.items[k].quantity = quantity;
                proof {
                    let it = items0[k as int];
                    let upd = Item { id: it.id, name: it.name, quantity: quantity, value: it.value };
                    assert(self.items@ =~= items0.update(k as int, upd));
                    lemma_sum_update(items0, |i: Item| quantity_of(i), k as int, upd);
                }
                return true;
            }
            k = k + 1;
        }
        proof {
            assert(items0.subrange(0, k as int) =~= items0);
            lemma_sum_push(items0, |i: Item| quantity_of(i), new_item);
        }
        self.items.push(new_item);
        true
    }

    /// The stacks as text: `name xQUANTITY` for each, separated by commas.
    pub fn print_items(&self) -> (r: String)
        ensures
            r@ == items_text(self@.items),
    {
        let mut text = String::new();
        let mut k: usize = 0;
        proof {
            reveal_strlit(",");
            reveal_strlit(" x");
            assert(self.items@.subrange(0, 0) =~= Seq::<Item>::empty());
        }
        while k < self.items.len()
            invariant
                k <= self.items@.len(),
                text@ == items_text(self.items@.subrange(0, k as int)),
                ",".view() == seq![','],
                " x".view() == seq![' ', 'x'],
            decreases self.items@.len() - k,
        {
            let it = &self.items[k];
            if k > 0 {
                text.append(",");
            }
            text.append(it.name.as_str());
            text.append(" x");
            let count = decimal_text(it.quantity as u64);
            text.append(count.as_str());
            proof {
                let pre = self.items@.subrange(0, k as int);
                let next = self.items@.subrange(0, k as int + 1);
                assert(next.drop_last() =~= pre);
                assert(next.last() == self.items@[k as int]);
                if k == 0 {
                    assert(text@ =~= item_text(self.items@[0]));
                } else {
                    assert(text@ =~= items_text(pre) + seq![','] + item_text(self.items@[k as int]));
                }
            }
            k = k + 1;
        }
        proof {
            assert(self.items@.subrange(0, k as int) =~= self.items@);
        }
        text
    }

    /// Empties the hold; its capacity is kept.
    pub fn clear(&mut self)
        ensures
            final(self)@.items.len() == 0,
            final(self)@.capacity == old(self)@.capacity,
            final(self).wf(),
    {
        self.items = Vec::new();
    }
}

impl Default for Inventory {
    /// An empty hold for ten items.
    fn default() -> (r: Inventory)
        ensures
            r.wf(),
            r@.items.len() == 0,
            r@.capacity == 10,
    {
        Inventory::with_capacity(10)
    }
}

/// The player's money.
pub struct Currency {
    pub amount: u32,
}

impl Default for Currency {
    /// A hundred to start with.
    fn default() -> (r: Currency)
        ensures
            r.amount == 100,
    {
        Currency { amount: 100 }
    }
}

/// Sells the whole hold: the worth of every stack (unit value times
/// quantity) is added to the purse and the hold is emptied. Nothing happens
/// when the hold is empty or when the purse could not hold the sum; returns
/// whether the sale took place.
pub fn sell_all_inventory(inventory: &mut Inventory, currency: &mut Currency) -> (r: bool)
    requires
        old(inventory).wf(),
    ensures
        final(inventory).wf(),
        r == (old(inventory)@.items.len() > 0 && old(currency).amount + total_worth(
            old(inventory)@.items,
        ) <= u32::MAX),
        r ==> final(currency).amount == old(currency).amount + total_worth(old(inventory)@.items)
            && final(inventory)@.items.len() == 0 && final(inventory)@.capacity == old(
            inventory,
        )@.capacity,
        !r ==> final(currency).amount == old(currency).amount && final(inventory)@ == old(
            inventory,
        )@,
{
    if inventory.is_empty() {
        return false;
    }
    let ghost f = |i: Item| worth_of(i);
    let ghost items = inventory@.items;
    let room: u128 = (u32::MAX - currency.amount) as u128;
    let mut total: u128 = 0;
    let mut k: usize = 0;
    let n = inventory.items().len();
    while k < n
        invariant
            f == (|i: Item| worth_of(i)),
            items == inventory@.items,
            n == items.len(),
            k <= n,
            total == sum_of(items.subrange(0, k as int), f),
            total <= room,
            room == u32::MAX - currency.amount,
            inventory.wf(),
        decreases n - k,
    {
        proof {
            lemma_sum_prefix(items, f, k as int);
        }
        let it = &inventory.items()[k];
        proof {
            assert(it.value as int * it.quantity as int <= 0xffff_ffff * 0xffff_ffff_ffff_ffff)
                by (nonlinear_arith)
                requires
                    it.value <= 0xffff_ffff,
                    it.quantity <= 0xffff_ffff_ffff_ffff,
            ;
        }
        total = total + it.value as u128 * it.quantity as u128;
        if total > room {
            return false;
        }
        k = k + 1;
    }
    proof {
        assert(items.subrange(0, k as int) =~= items);
    }
    currency.amount = currency.amount + total as u32;
    inventory.clear();
    true
}

} // verus!
