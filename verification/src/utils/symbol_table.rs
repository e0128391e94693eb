//! A symbol table handing out consecutive small ids for shape labels.
//!
//! The table keeps a two-way association between label text and id, so
//! that a schema author can name shapes and read ids back.  The two-way
//! store is `bimap`'s hash bimap; what it holds is modelled as a map
//! from label text to id, injective in both directions.

use vstd::prelude::*;

verus! {

#[verifier::external_type_specification]
#[verifier::external_body]
#[verifier::reject_recursive_types(L)]
#[verifier::reject_recursive_types(R)]
#[verifier::reject_recursive_types(LS)]
#[verifier::reject_recursive_types(RS)]
pub struct ExBiHashMap<L, R, LS, RS>(bimap::BiHashMap<L, R, LS, RS>);

/// The two-way store: label text on the left, ids on the right.
pub type LabelStore = bimap::BiMap<String, u8>;

/// What the two-way store holds: the association from label text to id.
pub uninterp spec fn table_contents(m: LabelStore) -> Map<Seq<char>, u8>;

/// Relies on bimap::BiHashMap::new: a fresh bimap holds no pair.
#[verifier::external_body]
fn bimap_new() -> (res: LabelStore)
    ensures
        (table_contents(res) == Map::<Seq<char>, u8>::empty()),
{
    bimap::BiMap::new()
}

/// Relies on bimap::BiHashMap::insert: the pair goes in, and any pair
/// sharing the label or the id leaves.
#[verifier::external_body]
fn bimap_insert(m: &mut LabelStore, label: &str, value: u8)
    ensures
        table_contents(*final(m)) == table_contents(*old(m)).remove_keys(
            Set::new(
                |k: Seq<char>|
                    table_contents(*old(m)).dom().contains(k) && table_contents(*old(m))[k]
                        == value,
            ),
        ).insert(label@, value),
{
    m.insert(label.to_owned(), value);
}

/// Relies on bimap::BiHashMap::get_by_right: the label paired with the
/// id, where the store holds one.
#[verifier::external_body]
fn bimap_get_by_right(m: &LabelStore, value: u8) -> (r: Option<String>)
    ensures
        match r {
            Some(s) => table_contents(*m).dom().contains(s@) && table_contents(*m)[s@] == value,
            None => forall|k: Seq<char>|
                table_contents(*m).dom().contains(k) ==> table_contents(*m)[k] != value,
        },
{
    m.get_by_right(&value).cloned()
}

/// A two-way association of label text and id, with the next free id.
pub struct SymbolTable {
    symbol_table: LabelStore,
    last: u8,
}

impl SymbolTable {
    /// The association from label text to id.
    pub closed spec fn contents(&self) -> Map<Seq<char>, u8> {
        table_contents(self.symbol_table)
    }

    /// The id that the next insertion hands out.
    pub closed spec fn next_id(&self) -> u8 {
        self.last
    }

    /// An empty table whose first id is zero.
    pub fn new() -> (r: SymbolTable)
        ensures
            (r.contents() == Map::<Seq<char>, u8>::empty()),
            r.next_id() == 0,
    {
        SymbolTable { symbol_table: bimap_new(), last: 0 }
    }

    /// Registers `label` under the next free id and returns that id.
    pub fn insert(&mut self, label: &str) -> (r: u8)
        requires
            old(self).next_id() < 255,
        ensures
            r == old(self).next_id(),
            final(self).next_id() == old(self).next_id() + 1,
            final(self).contents() == old(self).contents().remove_keys(
                Set::new(
                    |k: Seq<char>|
                        old(self).contents().dom().contains(k) && old(self).contents()[k] == r,
                ),
            ).insert(label@, r),
    {
        let id = self.last;
        bimap_insert(&mut self.symbol_table, label, id);
        self.last = id + 1;
        id
    }

    /// Returns the label registered under `value`, or empty text where
    /// none is.
    pub fn get(&self, value: u8) -> (r: String)
        ensures
            (exists|k: Seq<char>|
                self.contents().dom().contains(k) && self.contents()[k] == value) ==> {
                &&& self.contents().dom().contains(r@)
                &&& self.contents()[r@] == value
            },
            !(exists|k: Seq<char>|
                self.contents().dom().contains(k) && self.contents()[k] == value) ==> r@
                =~= Seq::<char>::empty(),
    {
        match bimap_get_by_right(&self.symbol_table, value) {
            Some(s) => s,
            None => String::new(),
        }
    }
}

impl Default for SymbolTable {
    /// An empty table whose first id is zero.
    fn default() -> (r: SymbolTable)
        ensures
            (r.contents() == Map::<Seq<char>, u8>::empty()),
            r.next_id() == 0,
    {
        SymbolTable::new()
    }
}

} // verus!
