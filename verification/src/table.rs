//! The table that files values by chromosome.

use vstd::prelude::*;
use crate::names::{lemma_name_before_transitive, name_before, order_of_names, NameOrder};

verus! {

/// A value that belongs to a chromosome.
pub trait Named: Sized {
    /// The name of the chromosome.
    spec fn chromosome(&self) -> Seq<char>;

    /// Reads the name of the chromosome.
    fn chromosome_name(&self) -> (name: &String)
        ensures
            name@ == self.chromosome(),
    ;
}

/// The index of the last of the values that belongs to `chromosome`.
pub open spec fn latest_of<T: Named>(values: Seq<T>, chromosome: Seq<char>) -> Option<int>
    decreases values.len(),
{
    if values.len() == 0 {
        None
    } else if values.last().chromosome() == chromosome {
        Some(values.len() - 1)
    } else {
        latest_of(values.drop_last(), chromosome)
    }
}

/// The last value of a chromosome belongs to that chromosome, and no
/// value after it does.
pub proof fn lemma_latest_of<T: Named>(values: Seq<T>, chromosome: Seq<char>)
    ensures
        latest_of(values, chromosome) matches Some(i) ==> 0 <= i < values.len()
            && values[i].chromosome() == chromosome && forall|j: int|
            i < j < values.len() ==> (#[trigger] values[j]).chromosome() != chromosome,
        latest_of(values, chromosome) is None ==> forall|j: int|
            0 <= j < values.len() ==> (#[trigger] values[j]).chromosome() != chromosome,
    decreases values.len(),
{
    if values.len() > 0 && values.last().chromosome() != chromosome {
        lemma_latest_of(values.drop_last(), chromosome);
        assert forall|j: int|
            0 <= j < values.len() && (latest_of(values, chromosome) matches Some(i) ==> i
                < j) implies (#[trigger] values[j]).chromosome() != chromosome by {
            if j < values.len() - 1 {
                assert(values.drop_last()[j] == values[j]);
            }
        }
    }
}

/// The table holds, for each chromosome that one of the values belongs
/// to, the last of the values that does, and nothing else.
pub open spec fn holds_latest<T: Named>(table: Map<Seq<char>, T>, values: Seq<T>) -> bool {
    forall|chromosome: Seq<char>|
        {
            &&& #[trigger] table.contains_key(chromosome) <==> latest_of(values, chromosome) is Some
            &&& table.contains_key(chromosome) ==> table[chromosome] == values[latest_of(
                values,
                chromosome,
            )->0]
        }
}

/// A value filed under the name of a chromosome.
#[derive(Debug)]
pub struct Entry<T> {
    pub name: String,
    pub value: T,
}

/// Values filed by chromosome, one for each name, in the order of the
/// names.
#[derive(Debug)]
pub struct ChromosomeTable<T> {
    pub entries: Vec<Entry<T>>,
}

/// The entries stand in the order of their names, no name twice.
pub open spec fn names_ascending<T>(entries: Seq<Entry<T>>) -> bool {
    forall|i: int, j: int|
        0 <= i < j < entries.len() ==> name_before(
            (#[trigger] entries[i]).name@,
            (#[trigger] entries[j]).name@,
        )
}

/// Some entry has the name `name`.
pub open spec fn has_name<T>(entries: Seq<Entry<T>>, name: Seq<char>) -> bool {
    exists|i: int| 0 <= i < entries.len() && (#[trigger] entries[i]).name@ == name
}

/// The index of an entry with the name `name`.
pub open spec fn index_of_name<T>(entries: Seq<Entry<T>>, name: Seq<char>) -> int {
    choose|i: int| 0 <= i < entries.len() && (#[trigger] entries[i]).name@ == name
}

/// The entries as a map from name to value.
pub open spec fn map_of_entries<T>(entries: Seq<Entry<T>>) -> Map<Seq<char>, T> {
    Map::new(
        |name: Seq<char>| has_name(entries, name),
        |name: Seq<char>| entries[index_of_name(entries, name)].value,
    )
}

/// In a table the name finds the entry.
pub proof fn lemma_name_finds_entry<T>(entries: Seq<Entry<T>>, i: int)
    requires
        names_ascending(entries),
        0 <= i < entries.len(),
    ensures
        has_name(entries, entries[i].name@),
        index_of_name(entries, entries[i].name@) == i,
        map_of_entries(entries).contains_key(entries[i].name@),
        map_of_entries(entries)[entries[i].name@] == entries[i].value,
{
}

impl<T> View for ChromosomeTable<T> {
    type V = Map<Seq<char>, T>;

    open spec fn view(&self) -> Map<Seq<char>, T> {
        map_of_entries(self.entries@)
    }
}

impl<T> ChromosomeTable<T> {
    /// The entries stand in the order of their names, no name twice.
    pub open spec fn wf(&self) -> bool {
        names_ascending(self.entries@)
    }

    /// A table without entries.
    pub fn new() -> (table: Self)
        ensures
            table.wf(),
            table.entries@.len() == 0,
            table@ == Map::<Seq<char>, T>::empty(),
    {
        let table = ChromosomeTable { entries: Vec::new() };
        table
    }

    /// The number of entries.
    pub fn len(&self) -> (n: usize)
        ensures
            n == self.entries@.len(),
    {
        self.entries.len()
    }

    /// The name of the `i`-th entry in the order of the names.
    pub fn name_at(&self, i: usize) -> (name: &String)
        requires
            self.wf(),
            i < self.entries@.len(),
        ensures
            *name == self.entries@[i as int].name,
            self@.contains_key(name@),
    {
        &self.entries[i].name
    }

    /// The value of the `i`-th entry in the order of the names.
    pub fn value_at(&self, i: usize) -> (value: &T)
        requires
            self.wf(),
            i < self.entries@.len(),
        ensures
            *value == self.entries@[i as int].value,
            *value == self@[self.entries@[i as int].name@],
    {
        &self.entries[i].value
    }

    /// The value filed under `name`, if there is one.
    pub fn get(&self, name: &String) -> (r: Option<&T>)
        requires
            self.wf(),
        ensures
            r is Some <==> self@.contains_key(name@),
            r matches Some(value) ==> *value == self@[name@],
    {
        let mut i: usize = 0;
        while i < self.entries.len()
            invariant
                i <= self.entries.len(),
                self.wf(),
                forall|k: int| 0 <= k < i ==> (#[trigger] self.entries@[k]).name@ != name@,
            decreases self.entries.len() - i,
        {
            if self.entries[i].name == *name {
                return Some(&self.entries[i].value);
            }
            i += 1;
        }
        None
    }

    /// Files each of the values under the chromosome it belongs to. Where
    /// two belong to one chromosome, the later stays.
    pub fn from_values(values: Vec<T>) -> (table: Self) where T: Named
        ensures
            table.wf(),
            holds_latest(table@, values@),
            values@.len() > 0 ==> table.entries@.len() > 0,
    {
        let mut rest = values;
        let mut table: ChromosomeTable<T> = ChromosomeTable::new();
        while rest.len() > 0
            invariant
                rest@.len() <= values@.len(),
                rest@ == values@.take(rest@.len() as int),
                table.wf(),
                rest@.len() < values@.len() ==> table.entries@.len() > 0,
                forall|chromosome: Seq<char>|
                    {
                        &&& #[trigger] table@.contains_key(chromosome) <==> exists|j: int|
                            rest@.len() <= j < values@.len() && (#[trigger] values@[j]).chromosome()
                                == chromosome
                        &&& table@.contains_key(chromosome) ==> table@[chromosome]
                            == values@[latest_of(values@, chromosome)->0]
                    },
            decreases rest.len(),
        {
            let ghost n = rest@.len() - 1;
            let ghost before = table@;
            let value = rest.pop().unwrap();
            let ghost name = value.chromosome();
            let absent = table.get(value.chromosome_name()).is_none();
            if absent {
                proof {
                    lemma_latest_of(values@, name);
                }
                let name = value.chromosome_name().clone();
                table.insert(name, value);
            }
            proof {
                assert(table@.contains_key(name));
                assert forall|chromosome: Seq<char>|
                    {
                        &&& #[trigger] table@.contains_key(chromosome) <==> exists|j: int|
                            n <= j < values@.len() && (#[trigger] values@[j]).chromosome()
                                == chromosome
                        &&& table@.contains_key(chromosome) ==> table@[chromosome]
                            == values@[latest_of(values@, chromosome)->0]
                    } by {
                    if before.contains_key(chromosome) {
                        let j = choose|j: int|
                            n + 1 <= j < values@.len() && (#[trigger] values@[j]).chromosome()
                                == chromosome;
                        assert(n <= j < values@.len() && values@[j].chromosome() == chromosome);
                    }
                    if exists|j: int|
                        n <= j < values@.len() && (#[trigger] values@[j]).chromosome()
                            == chromosome {
                        let j = choose|j: int|
                            n <= j < values@.len() && (#[trigger] values@[j]).chromosome()
                                == chromosome;
                        if j > n {
                            assert(n + 1 <= j < values@.len() && values@[j].chromosome()
                                == chromosome);
                        }
                    }
                }
            }
        }
        proof {
            assert forall|chromosome: Seq<char>|
                #[trigger] table@.contains_key(chromosome) <==> latest_of(
                    values@,
                    chromosome,
                ) is Some by {
                lemma_latest_of(values@, chromosome);
            }
        }
        table
    }

    /// Files `value` under `name`, in place of what was filed there.
    pub fn insert(&mut self, name: String, value: T)
        requires
            old(self).wf(),
        ensures
            final(self).wf(),
            final(self)@ == old(self)@.insert(name@, value),
    {
        let mut j: usize = self.entries.len();
        while j > 0 && order_of_names(&name, &self.entries[j - 1].name) == NameOrder::Before
            invariant
                j <= self.entries.len(),
                self.entries == old(self).entries,
                forall|k: int|
                    j <= k < self.entries@.len() ==> name_before(
                        name@,
                        (#[trigger] self.entries@[k]).name@,
                    ),
            decreases j,
        {
            j -= 1;
        }
        let ghost before = self.entries@;
        let same = j > 0 && order_of_names(&name, &self.entries[j - 1].name) == NameOrder::Same;
        let entry = Entry { name, value };
        if same {
            self.entries.set(j - 1, entry);
        } else {
            self.entries.insert(j, entry);
        }
        proof {
            let after = self.entries@;
            let at = if same {
                j - 1
            } else {
                j as int
            };
            assert(after[at] == entry);
            assert forall|k: int| 0 <= k < at implies name_before(
                (#[trigger] before[k]).name@,
                entry.name@,
            ) by {
                if same {
                    assert(before[at].name@ == entry.name@);
                } else {
                    if k < j - 1 {
                        lemma_name_before_transitive(
                            before[k].name@,
                            before[j - 1].name@,
                            entry.name@,
                        );
                    }
                }
            }
            let wanted = map_of_entries(before).insert(entry.name@, entry.value);
            assert forall|n: Seq<char>| #[trigger]
                map_of_entries(after).contains_key(n) == wanted.contains_key(n) by {
                if has_name(before, n) && n != entry.name@ {
                    let o = index_of_name(before, n);
                    let i = if same || o < at {
                        o
                    } else {
                        o + 1
                    };
                    assert(after[i] == before[o]);
                }
            }
        }
    }
}

} // verus!
