//! The abstract view of a TOML document edited through `toml_edit`, and the
//! small set of `toml_edit` operations that the manifest logic uses, each
//! stated over that view.
//!
//! The view keeps what the logic reads and writes: the order of the keys of
//! each table, what each key holds, strings, arrays and whether a table is
//! implicit. Layout, comments and every other kind of value are kept by
//! `toml_edit` itself and are not part of the view.

use vstd::prelude::*;
use vstd::string::*;

verus! {

/// What one item of a document holds, as far as the manifest logic reads it.
pub enum Node {
    /// A string value.
    Str(Seq<char>),
    /// An array value, with the view of each element.
    Arr(Seq<Node>),
    /// A table (not an inline one): its keys in document order, what each
    /// key holds, and whether the table is implicit.
    Tab(Seq<Seq<char>>, Map<Seq<char>, Node>, bool),
    /// A placeholder that holds nothing.
    Empty,
    /// Any other value (numbers, inline tables, arrays of tables, ...).
    Other,
}

#[verifier::external_type_specification]
#[verifier::external_body]
pub struct ExDocumentMut(toml_edit::DocumentMut);

#[verifier::external_type_specification]
#[verifier::external_body]
pub struct ExTable(toml_edit::Table);

#[verifier::external_type_specification]
#[verifier::external_body]
pub struct ExItem(toml_edit::Item);

#[verifier::external_type_specification]
#[verifier::external_body]
pub struct ExArray(toml_edit::Array);

#[verifier::external_type_specification]
#[verifier::external_body]
pub struct ExTomlError(toml_edit::TomlError);

/// The keys of a table, in the order the table holds them.
pub uninterp spec fn table_keys(t: toml_edit::Table) -> Seq<Seq<char>>;

/// What each key of a table holds.
pub uninterp spec fn table_items(t: toml_edit::Table) -> Map<Seq<char>, Node>;

/// Whether a table is implicit (not rendered as a header of its own when it
/// holds no key/value pairs).
pub uninterp spec fn table_implicit(t: toml_edit::Table) -> bool;

/// What an item holds.
pub uninterp spec fn item_node(i: toml_edit::Item) -> Node;

/// The elements of an array, in order.
pub uninterp spec fn array_items(a: toml_edit::Array) -> Seq<Node>;

/// The root table of a document.
pub uninterp spec fn doc_root(d: toml_edit::DocumentMut) -> Node;

/// The text a document renders to.
pub uninterp spec fn doc_text(d: toml_edit::DocumentMut) -> Seq<char>;

/// The root table of the document that a text parses to, or `None` where
/// the text is not a TOML document.
pub uninterp spec fn parsed(s: Seq<char>) -> Option<Node>;

/// The view of a whole table.
pub open spec fn table_node(t: toml_edit::Table) -> Node {
    Node::Tab(table_keys(t), table_items(t), table_implicit(t))
}

/// Whether a table holds something under `k` (a placeholder does not count).
pub open spec fn tab_has(n: Node, k: Seq<char>) -> bool {
    match n {
        Node::Tab(_, items, _) => items.contains_key(k) && items[k] != Node::Empty,
        _ => false,
    }
}

/// What a table holds under `k`.
pub open spec fn tab_get(n: Node, k: Seq<char>) -> Node {
    match n {
        Node::Tab(_, items, _) => if items.contains_key(k) { items[k] } else { Node::Empty },
        _ => Node::Empty,
    }
}

/// A table with `k` bound to `v`: a new key goes last, a present one keeps
/// its place.
pub open spec fn tab_insert(n: Node, k: Seq<char>, v: Node) -> Node {
    match n {
        Node::Tab(keys, items, imp) => Node::Tab(
            if items.contains_key(k) { keys } else { keys.push(k) },
            items.insert(k, v),
            imp,
        ),
        _ => n,
    }
}

/// A table without `k`; the other keys keep their order.
pub open spec fn tab_remove(n: Node, k: Seq<char>) -> Node {
    match n {
        Node::Tab(keys, items, imp) => Node::Tab(
            keys.filter(|x: Seq<char>| x != k),
            items.remove(k),
            imp,
        ),
        _ => n,
    }
}

/// A table with its implicit mark set to `b`.
pub open spec fn tab_set_implicit(n: Node, b: bool) -> Node {
    match n {
        Node::Tab(keys, items, _) => Node::Tab(keys, items, b),
        _ => n,
    }
}

/// An empty, explicit table.
pub open spec fn empty_tab() -> Node {
    Node::Tab(Seq::empty(), Map::empty(), false)
}

/// Binding a key of a table to what it already holds changes nothing.
pub proof fn lemma_insert_held(t: Node, k: Seq<char>)
    requires
        t is Tab,
        t->Tab_1.contains_key(k),
    ensures
        tab_insert(t, k, tab_get(t, k)) == t,
{
    assert(t->Tab_1.insert(k, t->Tab_1[k]) =~= t->Tab_1);
}

/// Relies on `DocumentMut`'s `FromStr` impl: the parsed document depends on
/// the text alone, and its root is always a table.
#[verifier::external_body]
pub(crate) fn parse_document(s: &str) -> (r: Result<toml_edit::DocumentMut, toml_edit::TomlError>)
    ensures
        r is Err <==> parsed(s@) is None,
        r matches Ok(d) ==> parsed(s@) == Some(doc_root(d)),
        r matches Ok(d) ==> doc_root(d) is Tab,
{
    s.parse::<toml_edit::DocumentMut>()
}

/// Relies on `TomlError`'s `Display` impl, for an error message.
#[verifier::external_body]
pub(crate) fn error_message(e: &toml_edit::TomlError) -> String {
    e.to_string()
}

/// Relies on `DocumentMut`'s `Display` impl, which reads the root as a
/// table and panics where it is not one.
#[verifier::external_body]
pub(crate) fn render(d: &toml_edit::DocumentMut) -> (r: String)
    requires
        doc_root(*d) is Tab,
    ensures
        r@ == doc_text(*d),
{
    d.to_string()
}

/// Relies on `DocumentMut::as_item_mut`: the document's root item, where it
/// is a table.
#[verifier::external_body]
pub(crate) fn root_table_mut(d: &mut toml_edit::DocumentMut) -> (r: Option<&mut toml_edit::Table>)
    ensures
        r is Some <==> doc_root(*old(d)) is Tab,
        r is None ==> *final(d) == *old(d),
        r is Some ==> table_node(*r.unwrap()) == doc_root(*old(d)),
        r is Some ==> doc_root(*final(d)) == table_node(*final(r.unwrap())),
{
    match d.as_item_mut() {
        toml_edit::Item::Table(t) => Some(t),
        _ => None,
    }
}

/// Relies on `Table::contains_key`: a key bound to a placeholder is absent.
#[verifier::external_body]
pub(crate) fn table_contains_key(t: &toml_edit::Table, k: &str) -> (r: bool)
    ensures
        r == tab_has(table_node(*t), k@),
{
    t.contains_key(k)
}

/// Relies on `Table::get_mut`: the item under a key, unless it is a
/// placeholder.
#[verifier::external_body]
pub(crate) fn table_get_mut<'a>(t: &'a mut toml_edit::Table, k: &str) -> (r: Option<&'a mut toml_edit::Item>)
    ensures
        r is Some <==> tab_has(table_node(*old(t)), k@),
        r is None ==> *final(t) == *old(t),
        r is Some ==> item_node(*r.unwrap()) == tab_get(table_node(*old(t)), k@),
        r is Some ==> table_node(*final(t)) == tab_insert(
            table_node(*old(t)),
            k@,
            item_node(*final(r.unwrap())),
        ),
{
    t.get_mut(k)
}

/// Relies on `Table::entry` and `Entry::or_insert`: the item under a key,
/// after `default` is put there if the key is not in the table.
#[verifier::external_body]
pub(crate) fn table_entry_or_insert<'a>(
    t: &'a mut toml_edit::Table,
    k: &str,
    default: toml_edit::Item,
) -> (r: &'a mut toml_edit::Item)
    ensures
        ({
            let n = table_node(*old(t));
            let present = n->Tab_1.contains_key(k@);
            &&& item_node(*r) == (if present { tab_get(n, k@) } else { item_node(default) })
            &&& table_node(*final(t)) == tab_insert(n, k@, item_node(*final(r)))
        }),
{
    t.entry(k).or_insert(default)
}

/// Relies on `Table::insert`.
#[verifier::external_body]
pub(crate) fn table_insert(t: &mut toml_edit::Table, k: &str, item: toml_edit::Item)
    ensures
        table_node(*final(t)) == tab_insert(table_node(*old(t)), k@, item_node(item)),
{
    t.insert(k, item);
}

/// Relies on `Table::remove`, which shifts the later keys up.
#[verifier::external_body]
pub(crate) fn table_remove(t: &mut toml_edit::Table, k: &str)
    ensures
        table_node(*final(t)) == tab_remove(table_node(*old(t)), k@),
{
    t.remove(k);
}

/// Relies on `Table::set_implicit`.
#[verifier::external_body]
pub(crate) fn table_set_implicit(t: &mut toml_edit::Table, b: bool)
    ensures
        table_node(*final(t)) == tab_set_implicit(table_node(*old(t)), b),
{
    t.set_implicit(b);
}

/// The keys of a table that hold something, in order.
pub open spec fn present_keys(n: Node) -> Seq<Seq<char>> {
    n->Tab_0.filter(|k: Seq<char>| tab_has(n, k))
}

/// The position of `k` in `o`: its first index, or `o.len()` where it is
/// not there.
pub open spec fn rank(o: Seq<Seq<char>>, k: Seq<char>) -> int
    decreases o.len(),
{
    if o.len() == 0 {
        0
    } else if o[0] == k {
        0
    } else {
        1 + rank(o.drop_first(), k)
    }
}

/// `keys` sorted stably by their position in `o`: first the keys that `o`
/// lists, in its order, then the others in the order they had.
pub open spec fn by_rank(keys: Seq<Seq<char>>, o: Seq<Seq<char>>) -> Seq<Seq<char>> {
    o.filter(|k: Seq<char>| keys.contains(k)) + keys.filter(|k: Seq<char>| !o.contains(k))
}

/// A table that is `a` with the keys reordered: each key keeps what it
/// holds, where that is not a table, and a nested table keeps its keys (as
/// a multiset), its implicit mark and what each of its keys holds, where
/// that is not a table.
pub open spec fn same_but_order(a: Node, b: Node) -> bool {
    &&& a is Tab
    &&& b is Tab
    &&& b->Tab_0.to_multiset() == a->Tab_0.to_multiset()
    &&& b->Tab_1.dom() == a->Tab_1.dom()
    &&& b->Tab_2 == a->Tab_2
    &&& forall|j: Seq<char>|
        #![trigger b->Tab_1[j]]
        a->Tab_1.contains_key(j) && !(a->Tab_1[j] is Tab) ==> b->Tab_1[j] == a->Tab_1[j]
}

/// Relies on `Table::iter`, which skips the keys that hold a placeholder;
/// the keys of a table are distinct.
#[verifier::external_body]
pub(crate) fn table_present_keys(t: &toml_edit::Table) -> (r: Vec<String>)
    ensures
        r@.map_values(|s: String| s@) == present_keys(table_node(*t)),
        r@.map_values(|s: String| s@).no_duplicates(),
{
    t.iter().map(|(k, _)| k.to_owned()).collect()
}

/// Relies on `Table::sort_values_by`, here with `rank_cmp` over `order` as
/// the comparator: a total order on keys. The sort (`IndexMap::sort_by`, a
/// stable slice sort) moves entries and keeps what each key holds; it also
/// sorts, by the same comparator, the dotted tables nested in the table,
/// so a nested table keeps its entries but perhaps not their order.
#[verifier::external_body]
pub(crate) fn table_sort_by_order(t: &mut toml_edit::Table, order: &Vec<String>)
    requires
        order@.map_values(|s: String| s@).no_duplicates(),
    ensures
        table_keys(*final(t)) == by_rank(table_keys(*old(t)), order@.map_values(|s: String| s@)),
        same_but_order(table_node(*old(t)), table_node(*final(t))),
        table_implicit(*final(t)) == table_implicit(*old(t)),
        forall|k: Seq<char>|
            #![trigger table_items(*final(t))[k]]
            table_items(*old(t)).contains_key(k) && table_items(*old(t))[k] is Tab
                ==> same_but_order(table_items(*old(t))[k], table_items(*final(t))[k]),
{
    t.sort_values_by(|k1, _, k2, _| rank_cmp(order, k1.get(), k2.get()));
}

/// The position of `k` in `order`.
pub fn rank_of(order: &Vec<String>, k: &str) -> (r: usize)
    ensures
        r as int == rank(order@.map_values(|s: String| s@), k@),
{
    let ghost o = order@.map_values(|s: String| s@);
    let mut i: usize = 0;
    assert(o.skip(0) =~= o);
    while i < order.len()
        invariant
            0 <= i <= order@.len(),
            o == order@.map_values(|s: String| s@),
            rank(o, k@) == i + rank(o.skip(i as int), k@),
        decreases order@.len() - i,
    {
        assert(o.skip(i as int)[0] == o[i as int]);
        assert(o.skip(i as int).drop_first() =~= o.skip(i as int + 1));
        if str_eq(order[i].as_str(), k) {
            return i;
        }
        i = i + 1;
    }
    assert(o.skip(i as int).len() == 0);
    i
}

/// Compares two keys by their position in `order`.
pub fn rank_cmp(order: &Vec<String>, a: &str, b: &str) -> (r: std::cmp::Ordering)
    ensures
        ({
            let o = order@.map_values(|s: String| s@);
            r == (if rank(o, a@) < rank(o, b@) {
                std::cmp::Ordering::Less
            } else if rank(o, a@) > rank(o, b@) {
                std::cmp::Ordering::Greater
            } else {
                std::cmp::Ordering::Equal
            })
        }),
{
    let ra = rank_of(order, a);
    let rb = rank_of(order, b);
    if ra < rb {
        std::cmp::Ordering::Less
    } else if ra > rb {
        std::cmp::Ordering::Greater
    } else {
        std::cmp::Ordering::Equal
    }
}

/// Whether two strings hold the same characters.
pub fn str_eq(a: &str, b: &str) -> (r: bool)
    ensures
        r == (a@ == b@),
{
    let n = a.unicode_len();
    if n != b.unicode_len() {
        return false;
    }
    let mut i: usize = 0;
    while i < n
        invariant
            n == a@.len(),
            n == b@.len(),
            0 <= i <= n,
            forall|j: int| 0 <= j < i ==> a@[j] == b@[j],
        decreases n - i,
    {
        if a.get_char(i) != b.get_char(i) {
            return false;
        }
        i = i + 1;
    }
    assert(a@ =~= b@);
    true
}

/// Relies on `toml_edit::table`: a new, empty, explicit table.
#[verifier::external_body]
pub(crate) fn new_table_item() -> (r: toml_edit::Item)
    ensures
        item_node(r) == empty_tab(),
{
    toml_edit::table()
}

/// Relies on `toml_edit::value`, given a string.
#[verifier::external_body]
pub(crate) fn string_item(s: &str) -> (r: toml_edit::Item)
    ensures
        item_node(r) == Node::Str(s@),
{
    toml_edit::value(s)
}

/// Relies on `toml_edit::value`, given an array.
#[verifier::external_body]
pub(crate) fn array_item(a: toml_edit::Array) -> (r: toml_edit::Item)
    ensures
        item_node(r) == Node::Arr(array_items(a)),
{
    toml_edit::value(a)
}

/// Relies on `Item::as_table_mut`: only a (non-inline) table converts.
#[verifier::external_body]
pub(crate) fn item_as_table_mut(i: &mut toml_edit::Item) -> (r: Option<&mut toml_edit::Table>)
    ensures
        r is Some <==> item_node(*old(i)) is Tab,
        r is None ==> *final(i) == *old(i),
        r is Some ==> table_node(*r.unwrap()) == item_node(*old(i)),
        r is Some ==> item_node(*final(i)) == table_node(*final(r.unwrap())),
{
    i.as_table_mut()
}

/// Relies on `Item::as_array_mut`: only an array value converts.
#[verifier::external_body]
pub(crate) fn item_as_array_mut(i: &mut toml_edit::Item) -> (r: Option<&mut toml_edit::Array>)
    ensures
        r is Some <==> item_node(*old(i)) is Arr,
        r is None ==> *final(i) == *old(i),
        r is Some ==> Node::Arr(array_items(*r.unwrap())) == item_node(*old(i)),
        r is Some ==> item_node(*final(i)) == Node::Arr(array_items(*final(r.unwrap()))),
{
    i.as_array_mut()
}

/// Relies on `Array::new`: an empty array.
#[verifier::external_body]
pub(crate) fn new_array() -> (r: toml_edit::Array)
    ensures
        array_items(r) == Seq::<Node>::empty(),
{
    toml_edit::Array::new()
}

/// Relies on `Array::len`.
#[verifier::external_body]
pub(crate) fn array_len(a: &toml_edit::Array) -> (r: usize)
    ensures
        r == array_items(*a).len(),
{
    a.len()
}

/// Relies on `Array::get` and `Value::as_str`: the element at `i`, where it
/// is a string.
#[verifier::external_body]
pub(crate) fn array_str_at<'a>(a: &'a toml_edit::Array, i: usize) -> (r: Option<&'a str>)
    requires
        i < array_items(*a).len(),
    ensures
        array_items(*a)[i as int] is Str <==> r is Some,
        r matches Some(s) ==> array_items(*a)[i as int] == Node::Str(s@),
{
    a.get(i).and_then(toml_edit::Value::as_str)
}

/// Relies on `Array::push`, given a string.
#[verifier::external_body]
pub(crate) fn array_push_str(a: &mut toml_edit::Array, s: &str)
    ensures
        array_items(*final(a)) == array_items(*old(a)).push(Node::Str(s@)),
{
    a.push(s);
}

} // verus!
