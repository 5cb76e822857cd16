//! Registries: items numbered in the order they are registered and found
//! again by number or by key, closed to new items once frozen.

use vstd::prelude::*;

verus! {

/// Items that have a registry key.
pub trait Registrable {
    /// The key of the item.
    spec fn key_of(&self) -> Seq<char>;

    /// The key of the item.
    fn key(&self) -> (r: &str)
        ensures
            r@ == self.key_of(),
    ;
}

/// The last position in `items` whose key is `key`, if any.
pub open spec fn last_with_key<T: Registrable>(items: Seq<&'static T>, key: Seq<char>) -> Option<int>
    decreases items.len(),
{
    if items.len() == 0 {
        None
    } else if items.last().key_of() == key {
        Some(items.len() - 1)
    } else {
        last_with_key(items.drop_last(), key)
    }
}

/// A registry of items, numbered from 0 in the order they are registered; a
/// key registered again is then found at its latest number.
pub struct Registry<T: Registrable + 'static> {
    items_by_id: Vec<&'static T>,
    allows_registering: bool,
}

impl<T: Registrable + 'static> Registry<T> {
    /// The registered items, by number.
    pub closed spec fn items(&self) -> Seq<&'static T> {
        self.items_by_id@
    }

    /// Whether items may still be registered.
    pub closed spec fn open_for_registering(&self) -> bool {
        self.allows_registering
    }

    /// An empty registry that accepts items.
    pub fn new() -> (r: Self)
        ensures
            r.items() == Seq::<&'static T>::empty(),
            r.open_for_registering(),
    {
        Registry { items_by_id: Vec::new(), allows_registering: true }
    }

    /// Closes the registry to new items.
    pub fn freeze(&mut self)
        ensures
            final(self).items() == old(self).items(),
            !final(self).open_for_registering(),
    {
        self.allows_registering = false;
    }

    /// Registers an item and returns its number (the count of items before it).
    pub fn register(&mut self, item: &'static T) -> (id: usize)
        requires
            old(self).open_for_registering(),
        ensures
            id == old(self).items().len(),
            final(self).items() == old(self).items().push(item),
            final(self).open_for_registering(),
    {
        let id = self.items_by_id.len();
        self.items_by_id.push(item);
        id
    }

    /// The item with a number, if there is one.
    pub fn by_id(&self, id: usize) -> (r: Option<&'static T>)
        ensures
            id < self.items().len() ==> r == Some(self.items()[id as int]),
            id >= self.items().len() ==> r is None,
    {
        if id < self.items_by_id.len() {
            Some(self.items_by_id[id])
        } else {
            None
        }
    }

    /// The latest number registered under a key, if any.
    fn find_key(&self, key: &str) -> (r: Option<usize>)
        ensures
            match r {
                Some(x) => last_with_key(self.items(), key@) == Some(x as int) && x < self.items().len(),
                None => last_with_key(self.items(), key@) is None,
            },
    {
        let key_chars = crate::text::chars_of(key);
        let mut i: usize = self.items_by_id.len();
        assert(self.items_by_id@.take(i as int) == self.items_by_id@);
        while i > 0
            invariant
                i <= self.items_by_id@.len(),
                key_chars@ == key@,
                last_with_key(self.items_by_id@, key@) == last_with_key(
                    self.items_by_id@.take(i as int),
                    key@,
                ),
            decreases i,
        {
            let item_key = crate::text::chars_of(self.items_by_id[i - 1].key());
            assert(self.items_by_id@.take(i as int).drop_last() == self.items_by_id@.take(i - 1));
            if crate::text::chars_eq(item_key.as_slice(), key_chars.as_slice()) {
                proof {
                    lemma_last_with_key_bound(self.items_by_id@.take(i as int), key@);
                }
                return Some(i - 1);
            }
            i -= 1;
        }
        assert(self.items_by_id@.take(0) == Seq::<&'static T>::empty());
        None
    }

    /// The number of an item: the latest number registered under its key.
    pub fn get_id(&self, item: &'static T) -> (r: usize)
        requires
            last_with_key(self.items(), item.key_of()) is Some,
        ensures
            last_with_key(self.items(), item.key_of()) == Some(r as int),
    {
        self.find_key(item.key()).unwrap()
    }

    /// The item registered latest under a key, if any.
    pub fn by_key(&self, key: &str) -> (r: Option<&'static T>)
        ensures
            match last_with_key(self.items(), key@) {
                Some(i) => r == Some(self.items()[i]),
                None => r is None,
            },
    {
        match self.find_key(key) {
            Some(i) => Some(self.items_by_id[i]),
            None => None,
        }
    }
}

proof fn lemma_last_with_key_bound<T: Registrable>(items: Seq<&'static T>, key: Seq<char>)
    ensures
        last_with_key(items, key) matches Some(i) ==> 0 <= i < items.len() && items[i].key_of()
            == key,
    decreases items.len(),
{
    if items.len() > 0 && items.last().key_of() != key {
        lemma_last_with_key_bound(items.drop_last(), key);
    }
}

/// What a registry gives back of a registration: the item registered is found
/// by its number, and by its key (until another item takes that key).
pub proof fn law_register_then_find<T: Registrable>(
    before: Seq<&'static T>,
    item: &'static T,
)
    ensures
        before.push(item)[before.len() as int] == item,
        last_with_key(before.push(item), item.key_of()) == Some(before.len() as int),
{
    assert(before.push(item).drop_last() == before);
}

/// An item type, known by its key.
#[derive(Debug)]
pub struct Item {
    pub key: String,
}

impl Item {
    /// The item of a block, under the block's key.
    pub fn from_block(block_key: &str) -> (r: Self)
        ensures
            r.key@ == block_key@,
    {
        Item { key: block_key.to_owned() }
    }

    /// The item of a block under another name, in the vanilla namespace.
    pub fn from_block_custom_name(name: &str) -> (r: Self)
        ensures
            r.key@ == "minecraft:"@ + name@,
    {
        let mut key: Vec<char> = crate::text::chars_of("minecraft:");
        let tail = crate::text::chars_of(name);
        let ghost start = key@;
        let mut j: usize = 0;
        while j < tail.len()
            invariant
                j <= tail@.len(),
                start == "minecraft:"@,
                key@ == start + tail@.take(j as int),
            decreases tail@.len() - j,
        {
            key.push(tail[j]);
            assert(tail@.take(j + 1) == tail@.take(j as int).push(tail@[j as int]));
            j += 1;
        }
        assert(tail@.take(tail@.len() as int) == tail@);
        Item { key: crate::text::string_of(key.as_slice()) }
    }
}

impl Registrable for Item {
    open spec fn key_of(&self) -> Seq<char> {
        self.key@
    }

    fn key(&self) -> (r: &str) {
        self.key.as_str()
    }
}

/// The registry of item types.
pub struct ItemRegistry {
    registry: Registry<Item>,
}

impl ItemRegistry {
    /// The registered items, by number.
    pub closed spec fn items(&self) -> Seq<&'static Item> {
        self.registry.items()
    }

    /// Whether items may still be registered.
    pub closed spec fn open_for_registering(&self) -> bool {
        self.registry.open_for_registering()
    }

    /// An empty registry that accepts items.
    pub fn new() -> (r: Self)
        ensures
            r.items() == Seq::<&'static Item>::empty(),
            r.open_for_registering(),
    {
        ItemRegistry { registry: Registry::new() }
    }

    /// Closes the registry to new items.
    pub fn freeze(&mut self)
        ensures
            final(self).items() == old(self).items(),
            !final(self).open_for_registering(),
    {
        self.registry.freeze();
    }

    /// Registers an item and returns its number.
    pub fn register(&mut self, item: &'static Item) -> (id: usize)
        requires
            old(self).open_for_registering(),
        ensures
            id == old(self).items().len(),
            final(self).items() == old(self).items().push(item),
            final(self).open_for_registering(),
    {
        self.registry.register(item)
    }

    /// The item with a number, if there is one.
    pub fn by_id(&self, id: usize) -> (r: Option<&'static Item>)
        ensures
            id < self.items().len() ==> r == Some(self.items()[id as int]),
            id >= self.items().len() ==> r is None,
    {
        self.registry.by_id(id)
    }

    /// The number of an item: the latest number registered under its key.
    pub fn get_id(&self, item: &'static Item) -> (r: usize)
        requires
            last_with_key(self.items(), item.key_of()) is Some,
        ensures
            last_with_key(self.items(), item.key_of()) == Some(r as int),
    {
        self.registry.get_id(item)
    }

    /// The item registered latest under a key, if any.
    pub fn by_key(&self, key: &str) -> (r: Option<&'static Item>)
        ensures
            match last_with_key(self.items(), key@) {
                Some(i) => r == Some(self.items()[i]),
                None => r is None,
            },
    {
        self.registry.by_key(key)
    }
}

} // verus!
