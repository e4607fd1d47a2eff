//! Names of entries and streams, which are compared without regard to ASCII case.
use vstd::prelude::*;

verus! {

/// The unit `c` with an ASCII capital turned into the small letter.
pub open spec fn tolower(c: u16) -> u16 {
    if 0x41 <= c <= 0x5a {
        (c + 0x20) as u16
    } else {
        c
    }
}

/// The form of a name in which it is compared: every unit in lower case.
pub open spec fn folded(name: Seq<u16>) -> Seq<u16> {
    name.map_values(|c: u16| tolower(c))
}

/// Whether no unit of `name` is nul.
pub open spec fn no_nul(name: Seq<u16>) -> bool {
    forall|i: int| 0 <= i < name.len() ==> name[i] != 0
}

pub fn u16_tolower(c: u16) -> (r: u16)
    ensures
        r == tolower(c),
{
    if c >= 0x41 && c <= 0x5a {
        c + 0x20
    } else {
        c
    }
}

/// A borrowed name that is compared without regard to ASCII case.
#[derive(Clone, Copy, Debug)]
pub struct EntryNameRef<'a> {
    pub units: &'a [u16],
}

impl<'a> EntryNameRef<'a> {
    pub open spec fn view(&self) -> Seq<u16> {
        self.units@
    }

    pub fn new(s: &'a [u16]) -> (r: Self)
        ensures
            r@ == s@,
    {
        EntryNameRef { units: s }
    }

    /// The units that a hash of the name is taken over: those of the name in lower case.
    pub fn hash_units(&self) -> (r: Vec<u16>)
        ensures
            r@ == folded(self@),
    {
        let mut r: Vec<u16> = Vec::new();
        let mut i: usize = 0;
        while i < self.units.len()
            invariant
                i <= self.units@.len(),
                r@ == folded(self.units@.take(i as int)),
            decreases self.units@.len() - i,
        {
            r.push(u16_tolower(self.units[i]));
            i += 1;
            proof {
                assert(r@ =~= folded(self.units@.take(i as int)));
            }
        }
        proof {
            assert(self.units@.take(i as int) =~= self.units@);
        }
        r
    }
}

impl<'a> PartialEq for EntryNameRef<'a> {
    fn eq(&self, other: &Self) -> (r: bool) {
        if self.units.len() != other.units.len() {
            proof {
                assert(folded(self@).len() != folded(other@).len());
            }
            return false;
        }
        let mut i: usize = 0;
        while i < self.units.len()
            invariant
                i <= self.units@.len(),
                self.units@.len() == other.units@.len(),
                forall|j: int|
                    0 <= j < i ==> tolower(#[trigger] self.units@[j]) == tolower(other.units@[j]),
            decreases self.units@.len() - i,
        {
            if u16_tolower(self.units[i]) != u16_tolower(other.units[i]) {
                proof {
                    assert(folded(self@)[i as int] != folded(other@)[i as int]);
                }
                return false;
            }
            i += 1;
        }
        proof {
            assert(folded(self@) =~= folded(other@));
        }
        true
    }
}

impl<'a> vstd::std_specs::cmp::PartialEqSpecImpl for EntryNameRef<'a> {
    open spec fn obeys_eq_spec() -> bool {
        true
    }

    open spec fn eq_spec(&self, other: &Self) -> bool {
        folded(self@) == folded(other@)
    }
}

impl<'a> Eq for EntryNameRef<'a> {

}

/// An owned name that is compared without regard to ASCII case.
#[derive(Debug)]
pub struct EntryName {
    pub units: Vec<u16>,
}

impl EntryName {
    pub open spec fn view(&self) -> Seq<u16> {
        self.units@
    }

    /// A name with the units of `s`.
    pub fn new(s: &[u16]) -> (r: Self)
        ensures
            r@ == s@,
    {
        EntryName { units: vstd::slice::slice_to_vec(s) }
    }

    /// The units that a hash of the name is made from.
    pub fn hash_units(&self) -> (r: Vec<u16>)
        ensures
            r@ == folded(self@),
    {
        self.borrow().hash_units()
    }

    pub fn borrow(&self) -> (r: EntryNameRef<'_>)
        ensures
            r@ == self@,
    {
        EntryNameRef::new(self.units.as_slice())
    }
}

impl PartialEq for EntryName {
    fn eq(&self, other: &Self) -> (r: bool) {
        self.borrow() == other.borrow()
    }
}

impl vstd::std_specs::cmp::PartialEqSpecImpl for EntryName {
    open spec fn obeys_eq_spec() -> bool {
        true
    }

    open spec fn eq_spec(&self, other: &Self) -> bool {
        folded(self@) == folded(other@)
    }
}

impl Eq for EntryName {

}

impl Clone for EntryName {
    fn clone(&self) -> (r: Self)
        ensures
            r@ == self@,
    {
        EntryName::new(self.units.as_slice())
    }
}

/// A name as it was given and the number that it stands for.
pub struct Link {
    pub name: Seq<u16>,
    pub id: usize,
}

/// A map from names to numbers in which names that differ only in ASCII case are one key.
#[derive(Debug)]
pub struct NameMap {
    items: Vec<(EntryName, usize)>,
}

impl NameMap {
    /// Names are unique up to case.
    #[verifier::type_invariant]
    spec fn unique(self) -> bool {
        distinct(self.items@)
    }

    /// Keyed by the folded name: the name as it was given, and its number.
    pub closed spec fn view(&self) -> Map<Seq<u16>, Link> {
        table(self.items@)
    }

    pub fn new() -> (r: Self)
        ensures
            r@ == Map::<Seq<u16>, Link>::empty(),
    {
        let r = NameMap { items: Vec::new() };
        proof {
            assert(r@ =~= Map::<Seq<u16>, Link>::empty());
        }
        r
    }

    /// The place of `name`, or the number of items where it is absent.
    fn position(&self, name: EntryNameRef<'_>) -> (r: usize)
        ensures
            r <= self.items@.len(),
            r < self.items@.len() ==> folded(self.items@[r as int].0@) == folded(name@),
            r == self.items@.len() ==> !self@.contains_key(folded(name@)),
    {
        let mut i: usize = 0;
        while i < self.items.len()
            invariant
                i <= self.items@.len(),
                forall|j: int| 0 <= j < i ==> folded(#[trigger] self.items@[j].0@) != folded(name@),
            decreases self.items@.len() - i,
        {
            if self.items[i].0.borrow() == name {
                return i;
            }
            i += 1;
        }
        i
    }

    pub fn get(&self, name: EntryNameRef<'_>) -> (r: Option<usize>)
        ensures
            r == (if self@.contains_key(folded(name@)) {
                Some(self@[folded(name@)].id)
            } else {
                None
            }),
    {
        proof {
            use_type_invariant(self);
        }
        let i: usize = self.position(name);
        if i < self.items.len() {
            proof {
                lemma_table(self.items@, i as int);
            }
            Some(self.items[i].1)
        } else {
            None
        }
    }

    /// Lets `name` stand for `id` and gives the number that it stood for. A name that is there
    /// already, up to case, keeps its spelling.
    pub fn insert(&mut self, name: EntryName, id: usize) -> (r: Option<usize>)
        ensures
            old(self)@.contains_key(folded(name@)) ==> {
                let link = old(self)@[folded(name@)];
                &&& r == Some(link.id)
                &&& final(self)@ == old(self)@.insert(folded(name@), Link { name: link.name, id })
            },
            !old(self)@.contains_key(folded(name@)) ==> {
                &&& r is None
                &&& final(self)@ == old(self)@.insert(folded(name@), Link { name: name@, id })
            },
    {
        proof {
            use_type_invariant(&*self);
        }
        let i: usize = self.position(name.borrow());
        let ghost before = self.items@;
        let ghost key = folded(name@);
        let ghost spelled = name@;
        let mut items: Vec<(EntryName, usize)> = Vec::new();
        std::mem::swap(&mut items, &mut self.items);
        let r: Option<usize>;
        if i < items.len() {
            proof {
                lemma_table(before, i as int);
            }
            r = Some(items[i].1);
            items[i].1 = id;
            proof {
                assert(distinct(items@));
                lemma_table_update(before, items@, i as int);
            }
        } else {
            r = None;
            items.push((name, id));
            proof {
                assert forall|j: int| 0 <= j < before.len() implies folded(#[trigger] before[j].0@) != key by {
                    assert(!table(before).contains_key(key));
                }
                assert(distinct(items@));
                assert(items@.drop_last() =~= before);
                lemma_table_push(before, items@);
            }
        }
        self.items = items;
        r
    }

    /// Takes `name` away and gives the number that it stood for.
    pub fn remove(&mut self, name: EntryNameRef<'_>) -> (r: Option<usize>)
        ensures
            r == (if old(self)@.contains_key(folded(name@)) {
                Some(old(self)@[folded(name@)].id)
            } else {
                None
            }),
            final(self)@ == old(self)@.remove(folded(name@)),
    {
        proof {
            use_type_invariant(&*self);
        }
        let i: usize = self.position(name);
        let ghost before = self.items@;
        let mut items: Vec<(EntryName, usize)> = Vec::new();
        std::mem::swap(&mut items, &mut self.items);
        let r: Option<usize>;
        if i < items.len() {
            proof {
                lemma_table(before, i as int);
            }
            let item = items.remove(i);
            r = Some(item.1);
            proof {
                lemma_table_remove(before, items@, i as int);
            }
        } else {
            r = None;
            proof {
                assert(table(before).remove(folded(name@)) =~= table(before));
            }
        }
        self.items = items;
        r
    }

    /// A name that stands for `id`.
    pub fn find(&self, id: usize) -> (r: Option<EntryName>)
        ensures
            match r {
                Some(name) => self@.contains_key(folded(name@)) && self@[folded(name@)] == (Link {
                    name: name@,
                    id,
                }),
                None => lacks(self@, id),
            },
    {
        proof {
            use_type_invariant(self);
        }
        let mut i: usize = 0;
        while i < self.items.len()
            invariant
                i <= self.items@.len(),
                distinct(self.items@),
                forall|j: int| 0 <= j < i ==> (#[trigger] self.items@[j]).1 != id,
            decreases self.items@.len() - i,
        {
            if self.items[i].1 == id {
                proof {
                    lemma_table(self.items@, i as int);
                }
                return Some(self.items[i].0.clone());
            }
            i += 1;
        }
        None
    }

    pub fn is_empty(&self) -> (r: bool)
        ensures
            r == (self@ == Map::<Seq<u16>, Link>::empty()),
    {
        proof {
            use_type_invariant(self);
            if self.items@.len() == 0 {
                assert(self@ =~= Map::<Seq<u16>, Link>::empty());
            } else {
                lemma_table(self.items@, 0);
            }
        }
        self.items.is_empty()
    }

    /// The names with their numbers, each once, in an order that is not part of the contract.
    pub fn items(&self) -> (r: &Vec<(EntryName, usize)>)
        ensures
            lists(r@, self@),
    {
        proof {
            use_type_invariant(self);
            assert forall|i: int| 0 <= i < self.items@.len() implies {
                let key = folded(#[trigger] self.items@[i].0@);
                &&& self@.contains_key(key)
                &&& self@[key] == (Link { name: self.items@[i].0@, id: self.items@[i].1 })
            } by {
                lemma_table(self.items@, i);
            }
        }
        &self.items
    }
}

/// No name in `map` stands for `id`.
pub open spec fn lacks(map: Map<Seq<u16>, Link>, id: usize) -> bool {
    forall|key: Seq<u16>| #[trigger] map.contains_key(key) ==> map[key].id != id
}

/// `items` holds every link of `map` exactly once.
pub open spec fn lists(items: Seq<(EntryName, usize)>, map: Map<Seq<u16>, Link>) -> bool {
    &&& forall|i: int|
        0 <= i < items.len() ==> {
            let key = folded(#[trigger] items[i].0@);
            &&& map.contains_key(key)
            &&& map[key] == (Link { name: items[i].0@, id: items[i].1 })
        }
    &&& forall|i: int, j: int|
        0 <= i < j < items.len() ==> folded(#[trigger] items[i].0@) != folded(
            #[trigger] items[j].0@,
        )
    &&& forall|key: Seq<u16>| #[trigger]
        map.contains_key(key) ==> exists|i: int|
            0 <= i < items.len() && folded(#[trigger] items[i].0@) == key
}

/// No two names are equal up to case.
spec fn distinct(items: Seq<(EntryName, usize)>) -> bool {
    forall|i: int, j: int|
        0 <= i < j < items.len() ==> folded(#[trigger] items[i].0@) != folded(#[trigger] items[j].0@)
}

spec fn index_of(items: Seq<(EntryName, usize)>, key: Seq<u16>) -> int {
    choose|i: int| 0 <= i < items.len() && folded(#[trigger] items[i].0@) == key
}

spec fn table(items: Seq<(EntryName, usize)>) -> Map<Seq<u16>, Link> {
    Map::new(
        |key: Seq<u16>| exists|i: int| 0 <= i < items.len() && folded(#[trigger] items[i].0@) == key,
        |key: Seq<u16>|
            Link { name: items[index_of(items, key)].0@, id: items[index_of(items, key)].1 },
    )
}

proof fn lemma_table(items: Seq<(EntryName, usize)>, i: int)
    requires
        distinct(items),
        0 <= i < items.len(),
    ensures
        table(items).contains_key(folded(items[i].0@)),
        table(items)[folded(items[i].0@)] == (Link { name: items[i].0@, id: items[i].1 }),
{
    let key = folded(items[i].0@);
    let j = index_of(items, key);
    assert(folded(items[i].0@) == key);
    assert(0 <= j < items.len() && folded(items[j].0@) == key);
    if i < j {
        assert(folded(items[i].0@) != folded(items[j].0@));
    } else if j < i {
        assert(folded(items[j].0@) != folded(items[i].0@));
    }
}

proof fn lemma_table_update(
    before: Seq<(EntryName, usize)>,
    after: Seq<(EntryName, usize)>,
    i: int,
)
    requires
        distinct(before),
        distinct(after),
        0 <= i < before.len(),
        after.len() == before.len(),
        forall|j: int| 0 <= j < before.len() ==> (#[trigger] after[j]).0@ == before[j].0@,
        forall|j: int| 0 <= j < before.len() && j != i ==> (#[trigger] after[j]).1 == before[j].1,
    ensures
        table(after) == table(before).insert(
            folded(before[i].0@),
            Link { name: before[i].0@, id: after[i].1 },
        ),
{
    let m = table(before).insert(
        folded(before[i].0@),
        Link { name: before[i].0@, id: after[i].1 },
    );
    assert forall|key: Seq<u16>| #[trigger] table(after).dom().contains(key) implies m.dom().contains(
        key,
    ) by {
        let j = choose|j: int| 0 <= j < after.len() && folded(#[trigger] after[j].0@) == key;
        lemma_table(before, j);
    }
    assert forall|key: Seq<u16>| #[trigger] m.dom().contains(key) implies table(after).dom().contains(
        key,
    ) && table(after)[key] == m[key] by {
        if key == folded(before[i].0@) {
            lemma_table(after, i);
        } else {
            let j = choose|j: int| 0 <= j < before.len() && folded(#[trigger] before[j].0@) == key;
            lemma_table(after, j);
            lemma_table(before, j);
        }
    }
    assert(table(after) =~= m);
}

proof fn lemma_table_push(before: Seq<(EntryName, usize)>, after: Seq<(EntryName, usize)>)
    requires
        distinct(before),
        distinct(after),
        after.len() == before.len() + 1,
        after.drop_last() == before,
    ensures
        table(after) == table(before).insert(
            folded(after.last().0@),
            Link { name: after.last().0@, id: after.last().1 },
        ),
{
    let n = before.len() as int;
    let m = table(before).insert(
        folded(after.last().0@),
        Link { name: after.last().0@, id: after.last().1 },
    );
    assert(forall|j: int| 0 <= j < n ==> #[trigger] before[j] == after[j]);
    assert forall|key: Seq<u16>| #[trigger] table(after).dom().contains(key) implies m.dom().contains(
        key,
    ) by {
        let j = choose|j: int| 0 <= j < after.len() && folded(#[trigger] after[j].0@) == key;
        if j < n {
            lemma_table(before, j);
        }
    }
    assert forall|key: Seq<u16>| #[trigger] m.dom().contains(key) implies table(after).dom().contains(
        key,
    ) && table(after)[key] == m[key] by {
        if key == folded(after.last().0@) {
            lemma_table(after, n);
        } else {
            let j = choose|j: int| 0 <= j < before.len() && folded(#[trigger] before[j].0@) == key;
            lemma_table(after, j);
            lemma_table(before, j);
        }
    }
    assert(table(after) =~= m);
}

proof fn lemma_table_remove(
    before: Seq<(EntryName, usize)>,
    after: Seq<(EntryName, usize)>,
    i: int,
)
    requires
        distinct(before),
        0 <= i < before.len(),
        after == before.remove(i),
    ensures
        distinct(after),
        table(after) == table(before).remove(folded(before[i].0@)),
{
    let m = table(before).remove(folded(before[i].0@));
    assert forall|j: int| 0 <= j < after.len() implies #[trigger] after[j] == before[if j < i {
        j
    } else {
        j + 1
    }] by {}
    assert(distinct(after));
    assert forall|key: Seq<u16>| #[trigger] table(after).dom().contains(key) implies m.dom().contains(
        key,
    ) by {
        let j = choose|j: int| 0 <= j < after.len() && folded(#[trigger] after[j].0@) == key;
        let k = if j < i {
            j
        } else {
            j + 1
        };
        lemma_table(before, k);
        if k < i {
            assert(folded(before[k].0@) != folded(before[i].0@));
        } else {
            assert(folded(before[i].0@) != folded(before[k].0@));
        }
    }
    assert forall|key: Seq<u16>| #[trigger] m.dom().contains(key) implies table(after).dom().contains(
        key,
    ) && table(after)[key] == m[key] by {
        let k = choose|k: int| 0 <= k < before.len() && folded(#[trigger] before[k].0@) == key;
        let j = if k < i {
            k
        } else {
            k - 1
        };
        assert(after[j] == before[k]);
        lemma_table(after, j);
        lemma_table(before, k);
    }
    assert(table(after) =~= m);
}

} // verus!
