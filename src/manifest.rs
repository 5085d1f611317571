//! The manifest transformer and the dynamic-version detector.
//!
//! The transformer makes up to five edits, each under its own setting and
//! in a fixed order:
//! 1. `project.version` gives way to `project.dynamic = ["version"]`;
//! 2. missing entries are appended to `build-system.requires`;
//! 3. `tool.hatch.version.source` is set to `"vcs"`;
//! 4. `tool.pytest.ini_options.asyncio_mode` is set to `"auto"`;
//! 5. `tool.bandit` gets its default `skips` and `exclude_dirs` entries.

use vstd::prelude::*;
use crate::config::{UvinitConfig, string_views};
use crate::document::{
    Node, array_item, array_items, array_len, array_push_str, array_str_at, doc_root, doc_text,
    empty_tab, error_message, item_as_array_mut, item_as_table_mut, item_node,
    lemma_insert_held, new_array, new_table_item, parse_document, parsed, render,
    root_table_mut, str_eq, string_item, tab_get, tab_has, tab_insert, tab_remove,
    tab_set_implicit, table_contains_key, table_entry_or_insert, table_get_mut, table_insert,
    table_node, table_remove, table_set_implicit, table_sort_by_order, table_present_keys,
    rank, rank_of, by_rank, present_keys, same_but_order,
};

verus! {

/// Why a manifest could not be read or transformed.
#[derive(Clone, Debug, PartialEq, Eq)]
pub enum ManifestError {
    /// The text is not a TOML document.
    Parse(String),
}

/// An array with `s` appended unless it already holds that string.
pub open spec fn with_str(items: Seq<Node>, s: Seq<char>) -> Seq<Node> {
    if items.contains(Node::Str(s)) {
        items
    } else {
        items.push(Node::Str(s))
    }
}

/// An array with each string of `ss` appended, in order, unless already
/// held.
pub open spec fn with_strs(items: Seq<Node>, ss: Seq<Seq<char>>) -> Seq<Node>
    decreases ss.len(),
{
    if ss.len() == 0 {
        items
    } else {
        with_str(with_strs(items, ss.drop_last()), ss.last())
    }
}

/// A table whose array under `k` (created empty where the key is missing)
/// has the strings of `ss` added; a value other than an array is left as
/// it is.
pub open spec fn with_array_strs(t: Node, k: Seq<char>, ss: Seq<Seq<char>>) -> Node {
    let a = if t->Tab_1.contains_key(k) {
        tab_get(t, k)
    } else {
        Node::Arr(Seq::empty())
    };
    tab_insert(t, k, if a is Arr { Node::Arr(with_strs(a->Arr_0, ss)) } else { a })
}

/// A table that holds a table under `k`, an empty one where `k` was
/// missing.
pub open spec fn ensure_tab(t: Node, k: Seq<char>) -> Node {
    if tab_has(t, k) {
        t
    } else {
        tab_insert(t, k, empty_tab())
    }
}

/// A table in which `k` is set to `v` in the table reached through `path`:
/// missing tables on the way are created, every table on the way is marked
/// implicit, and where the way meets a value that is not a table nothing
/// further changes.
pub open spec fn nested_set(t: Node, path: Seq<Seq<char>>, k: Seq<char>, v: Node) -> Node
    decreases path.len(),
{
    if path.len() == 0 {
        tab_insert(t, k, v)
    } else {
        let t1 = ensure_tab(t, path[0]);
        let c = tab_get(t1, path[0]);
        if c is Tab {
            tab_insert(t1, path[0], nested_set(tab_set_implicit(c, true), path.drop_first(), k, v))
        } else {
            t1
        }
    }
}

/// The entries that edit 2 adds to `build-system.requires`.
pub open spec fn required_names(cfg: UvinitConfig) -> Seq<Seq<char>> {
    (if cfg.add_hatch_vcs { seq!["hatch-vcs"@] } else { Seq::empty() }) + string_views(
        cfg.additional_requires@,
    )
}

/// The root after edit 2: only an existing `build-system` table is touched.
pub open spec fn requires_edited(d: Node, cfg: UvinitConfig) -> Node {
    let bs = tab_get(d, "build-system"@);
    if (cfg.add_hatch_vcs || cfg.additional_requires@.len() > 0) && bs is Tab {
        tab_insert(d, "build-system"@, with_array_strs(bs, "requires"@, required_names(cfg)))
    } else {
        d
    }
}

/// The default `tool.bandit` entries added to a table.
pub open spec fn bandit_defaults(b: Node) -> Node {
    with_array_strs(
        with_array_strs(b, "skips"@, seq!["B101"@]),
        "exclude_dirs"@,
        seq![".venv"@, "venv"@, "tests"@],
    )
}

/// The root after edit 5.
pub open spec fn bandit_edited(d: Node) -> Node {
    let d1 = ensure_tab(d, "tool"@);
    let tool = tab_get(d1, "tool"@);
    if tool is Tab {
        let tool1 = ensure_tab(tab_set_implicit(tool, true), "bandit"@);
        let b = tab_get(tool1, "bandit"@);
        if b is Tab {
            tab_insert(d1, "tool"@, tab_insert(tool1, "bandit"@, bandit_defaults(b)))
        } else {
            tab_insert(d1, "tool"@, tool1)
        }
    } else {
        d1
    }
}

/// The root after edits 2 to 5, which do not read or write `project`.
pub open spec fn tools_edited(d: Node, cfg: UvinitConfig) -> Node {
    let d2 = requires_edited(d, cfg);
    let d3 = if cfg.enable_dynamic_version {
        nested_set(d2, seq!["tool"@, "hatch"@, "version"@], "source"@, Node::Str("vcs"@))
    } else {
        d2
    };
    let d4 = if cfg.enable_pytest_asyncio {
        nested_set(
            d3,
            seq!["tool"@, "pytest"@, "ini_options"@],
            "asyncio_mode"@,
            Node::Str("auto"@),
        )
    } else {
        d3
    };
    if cfg.enable_bandit {
        bandit_edited(d4)
    } else {
        d4
    }
}

/// `q` is `p` with its entries reordered: see `same_but_order`, which
/// also holds of each nested table.
pub open spec fn reordered(p: Node, q: Node) -> bool {
    &&& same_but_order(p, q)
    &&& forall|k: Seq<char>|
        #![trigger q->Tab_1[k]]
        p->Tab_1.contains_key(k) && p->Tab_1[k] is Tab ==> same_but_order(p->Tab_1[k], q->Tab_1[k])
}

/// The array `["version"]`.
pub open spec fn version_array() -> Node {
    Node::Arr(seq![Node::Str("version"@)])
}

/// The key order that edit 1 sorts to: `dynamic` moves to just after
/// `version` where `version` comes before it, and to the front otherwise;
/// the other keys keep their order.
pub open spec fn placed(l: Seq<Seq<char>>) -> Seq<Seq<char>> {
    let id = rank(l, "dynamic"@);
    let iv = rank(l, "version"@);
    if id >= l.len() {
        l
    } else if iv < id {
        l.take(iv + 1) + seq!["dynamic"@] + l.subrange(iv + 1, id) + l.skip(id + 1)
    } else {
        seq!["dynamic"@] + l.take(id) + l.skip(id + 1)
    }
}

/// Edit 1 on a `project` table `p`, giving `q`: `dynamic` is set to
/// `["version"]`, the keys are sorted into the order `placed` gives, and
/// `version` is removed.
pub open spec fn migrated(p: Node, q: Node) -> bool {
    exists|s: Node|
        #![trigger reordered(tab_insert(p, "dynamic"@, version_array()), s)]
        reordered(tab_insert(p, "dynamic"@, version_array()), s) && s->Tab_0 == by_rank(
            tab_insert(p, "dynamic"@, version_array())->Tab_0,
            placed(present_keys(tab_insert(p, "dynamic"@, version_array()))),
        ) && q == tab_remove(s, "version"@)
}

/// Whether the `project` table of a root holds `dynamic`.
pub open spec fn has_dynamic(d: Node) -> bool {
    tab_get(d, "project"@) is Tab && tab_has(tab_get(d, "project"@), "dynamic"@)
}

/// Whether edit 1 applies to a root.
pub open spec fn migrates(d: Node, cfg: UvinitConfig) -> bool {
    cfg.enable_dynamic_version && tab_get(d, "project"@) is Tab
}

/// `d1` is what the transformer makes of the root `d0`.
pub open spec fn transformed(d0: Node, d1: Node, cfg: UvinitConfig) -> bool {
    if migrates(d0, cfg) {
        exists|p: Node|
            #![trigger migrated(tab_get(d0, "project"@), p)]
            migrated(tab_get(d0, "project"@), p) && d1 == tools_edited(
                tab_insert(d0, "project"@, p),
                cfg,
            )
    } else {
        d1 == tools_edited(d0, cfg)
    }
}

/// Appends `s` to an array unless it already holds that string.
pub(crate) fn push_if_absent(a: &mut toml_edit::Array, s: &str)
    ensures
        array_items(*final(a)) == with_str(array_items(*old(a)), s@),
{
    let n = array_len(a);
    let mut i: usize = 0;
    while i < n
        invariant
            n == array_items(*a).len(),
            0 <= i <= n,
            forall|j: int| 0 <= j < i ==> array_items(*a)[j] != Node::Str(s@),
        decreases n - i,
    {
        match array_str_at(a, i) {
            Some(x) => {
                if str_eq(x, s) {
                    assert(array_items(*a)[i as int] == Node::Str(s@));
                    return;
                }
            },
            None => {},
        }
        i = i + 1;
    }
    assert(!array_items(*a).contains(Node::Str(s@)));
    array_push_str(a, s);
}

/// Adds each string of `ss`, in order, to the array under `k`, which is
/// created where the key is missing; a value other than an array is left
/// alone.
pub(crate) fn add_strings(t: &mut toml_edit::Table, k: &str, ss: &Vec<&str>)
    ensures
        table_node(*final(t)) == with_array_strs(table_node(*old(t)), k@, ss@.map_values(|s: &str| s@)),
{
    let ghost views = ss@.map_values(|s: &str| s@);
    let item = table_entry_or_insert(t, k, array_item(new_array()));
    match item_as_array_mut(item) {
        Some(a) => {
            let ghost start = array_items(*a);
            let mut i: usize = 0;
            while i < ss.len()
                invariant
                    0 <= i <= ss@.len(),
                    views == ss@.map_values(|s: &str| s@),
                    array_items(*a) == with_strs(start, views.take(i as int)),
                decreases ss@.len() - i,
            {
                assert(views.take(i as int + 1).drop_last() =~= views.take(i as int));
                push_if_absent(a, ss[i]);
                i = i + 1;
            }
            assert(views.take(ss@.len() as int) =~= views);
        },
        None => {},
    }
}

/// Sets `k` to `v` in the table reached from `t` through `path[i..]`, as
/// `nested_set` says.
pub(crate) fn set_nested(
    t: &mut toml_edit::Table,
    path: &Vec<&str>,
    i: usize,
    k: &str,
    v: toml_edit::Item,
)
    requires
        i <= path@.len(),
    ensures
        table_node(*final(t)) == nested_set(
            table_node(*old(t)),
            path@.map_values(|s: &str| s@).skip(i as int),
            k@,
            item_node(v),
        ),
    decreases path@.len() - i,
{
    let ghost rest = path@.map_values(|s: &str| s@).skip(i as int);
    if i == path.len() {
        table_insert(t, k, v);
        return;
    }
    let key = path[i];
    assert(rest[0] == key@);
    assert(rest.drop_first() =~= path@.map_values(|s: &str| s@).skip(i + 1));
    if !table_contains_key(t, key) {
        table_insert(t, key, new_table_item());
    }
    let ghost t1 = table_node(*t);
    assert(t1 == ensure_tab(table_node(*old(t)), key@));
    match table_get_mut(t, key) {
        Some(item) => match item_as_table_mut(item) {
            Some(c) => {
                table_set_implicit(c, true);
                set_nested(c, path, i + 1, k, v);
            },
            None => {
                proof {
                    lemma_insert_held(t1, key@);
                }
            },
        },
        None => {},
    }
}

/// Adds the default `skips` and `exclude_dirs` entries to `tool.bandit`.
pub(crate) fn add_bandit_defaults(root: &mut toml_edit::Table)
    ensures
        table_node(*final(root)) == bandit_edited(table_node(*old(root))),
{
    if !table_contains_key(root, "tool") {
        table_insert(root, "tool", new_table_item());
    }
    let ghost d1 = table_node(*root);
    match table_get_mut(root, "tool") {
        Some(item) => match item_as_table_mut(item) {
            Some(tool) => {
                table_set_implicit(tool, true);
                if !table_contains_key(tool, "bandit") {
                    table_insert(tool, "bandit", new_table_item());
                }
                let ghost tool1 = table_node(*tool);
                match table_get_mut(tool, "bandit") {
                    Some(bitem) => match item_as_table_mut(bitem) {
                        Some(bandit) => {
                            let mut skips: Vec<&str> = Vec::new();
                            skips.push("B101");
                            assert(skips@.map_values(|s: &str| s@) =~= seq!["B101"@]);
                            add_strings(bandit, "skips", &skips);
                            let mut dirs: Vec<&str> = Vec::new();
                            dirs.push(".venv");
                            dirs.push("venv");
                            dirs.push("tests");
                            assert(dirs@.map_values(|s: &str| s@) =~= seq![
                                ".venv"@,
                                "venv"@,
                                "tests"@,
                            ]);
                            add_strings(bandit, "exclude_dirs", &dirs);
                        },
                        None => {
                            proof {
                                lemma_insert_held(tool1, "bandit"@);
                            }
                        },
                    },
                    None => {},
                }
            },
            None => {
                proof {
                    lemma_insert_held(d1, "tool"@);
                }
            },
        },
        None => {},
    }
}

/// Whether the settings ask for any edit at all.
pub open spec fn edits_anything(cfg: UvinitConfig) -> bool {
    cfg.enable_dynamic_version || cfg.add_hatch_vcs || cfg.additional_requires@.len() > 0
        || cfg.enable_pytest_asyncio || cfg.enable_bandit
}

/// Appends `l[from..to]` to `r`.
pub(crate) fn push_range(r: &mut Vec<String>, l: &Vec<String>, from: usize, to: usize)
    requires
        from <= to <= l@.len(),
    ensures
        final(r)@.map_values(|s: String| s@) == old(r)@.map_values(|s: String| s@) + l@.map_values(
            |s: String| s@,
        ).subrange(from as int, to as int),
{
    let ghost start = r@.map_values(|s: String| s@);
    let ghost lv = l@.map_values(|s: String| s@);
    let mut i = from;
    while i < to
        invariant
            from <= i <= to <= l@.len(),
            lv == l@.map_values(|s: String| s@),
            r@.map_values(|s: String| s@) =~= start + lv.subrange(from as int, i as int),
        decreases to - i,
    {
        let ghost before = r@;
        r.push(l[i].clone());
        assert(r@.map_values(|s: String| s@) =~= before.map_values(|s: String| s@).push(lv[i as int]));
        i = i + 1;
    }
}

/// The key order that edit 1 sorts a table with keys `l` into.
pub(crate) fn placed_order(l: &Vec<String>) -> (r: Vec<String>)
    ensures
        r@.map_values(|s: String| s@) == placed(l@.map_values(|s: String| s@)),
{
    let ghost lv = l@.map_values(|s: String| s@);
    let id = rank_of(l, "dynamic");
    let iv = rank_of(l, "version");
    let mut r: Vec<String> = Vec::new();
    if id >= l.len() {
        push_range(&mut r, l, 0, l.len());
        assert(lv.subrange(0, lv.len() as int) =~= lv);
        return r;
    }
    if iv < id {
        push_range(&mut r, l, 0, iv + 1);
        r.push("dynamic".to_owned());
        push_range(&mut r, l, iv + 1, id);
        push_range(&mut r, l, id + 1, l.len());
        assert(r@.map_values(|s: String| s@) =~= lv.take(iv + 1) + seq!["dynamic"@] + lv.subrange(
            iv + 1,
            id as int,
        ) + lv.skip(id + 1));
    } else {
        r.push("dynamic".to_owned());
        push_range(&mut r, l, 0, id);
        push_range(&mut r, l, id + 1, l.len());
        assert(r@.map_values(|s: String| s@) =~= seq!["dynamic"@] + lv.take(id as int) + lv.skip(
            id + 1,
        ));
    }
    r
}

/// `rank` finds the first place of a key.
pub proof fn lemma_rank(o: Seq<Seq<char>>, k: Seq<char>)
    ensures
        0 <= rank(o, k) <= o.len(),
        rank(o, k) < o.len() ==> o[rank(o, k)] == k,
        forall|j: int| 0 <= j < rank(o, k) ==> o[j] != k,
    decreases o.len(),
{
    if o.len() > 0 && o[0] != k {
        lemma_rank(o.drop_first(), k);
        assert forall|j: int| 0 <= j < rank(o, k) implies o[j] != k by {
            if j > 0 {
                assert(o[j] == o.drop_first()[j - 1]);
            }
        }
    }
}

/// Where `l` lists each key once, so does the order `placed` gives.
pub proof fn lemma_placed_distinct(l: Seq<Seq<char>>)
    requires
        l.no_duplicates(),
    ensures
        placed(l).no_duplicates(),
{
    lemma_rank(l, "dynamic"@);
    lemma_rank(l, "version"@);
    let id = rank(l, "dynamic"@);
    let iv = rank(l, "version"@);
    let r = placed(l);
    if id < l.len() {
        let f = |i: int|
            if iv < id {
                if i <= iv {
                    i
                } else if i == iv + 1 {
                    id
                } else if i <= id {
                    i - 1
                } else {
                    i
                }
            } else {
                if i == 0 {
                    id
                } else if i <= id {
                    i - 1
                } else {
                    i
                }
            };
        assert(r.len() == l.len());
        assert forall|i: int| 0 <= i < r.len() implies 0 <= #[trigger] f(i) < l.len() && r[i] == l[f(i)] by {
        }
        assert forall|a: int, b: int| 0 <= a < r.len() && 0 <= b < r.len() && a != b implies r[a] != r[b] by {
            assert(r[a] == l[f(a)] && r[b] == l[f(b)]);
            assert(f(a) != f(b));
        }
    }
}

/// Edit 1 on a `project` table.
pub(crate) fn migrate_version(project: &mut toml_edit::Table)
    ensures
        migrated(table_node(*old(project)), table_node(*final(project))),
{
    let mut arr = new_array();
    array_push_str(&mut arr, "version");
    assert(array_items(arr) =~= seq![Node::Str("version"@)]);
    table_insert(project, "dynamic", array_item(arr));
    let ghost inserted = table_node(*project);
    let keys = table_present_keys(project);
    let order = placed_order(&keys);
    proof {
        lemma_placed_distinct(keys@.map_values(|s: String| s@));
    }
    table_sort_by_order(project, &order);
    let ghost sorted = table_node(*project);
    assert(reordered(inserted, sorted));
    table_remove(project, "version");
}

/// The entries for `build-system.requires`: `hatch-vcs` where asked for,
/// then the additional ones.
pub(crate) fn required_list(cfg: &UvinitConfig) -> (r: Vec<&str>)
    ensures
        r@.map_values(|s: &str| s@) == required_names(*cfg),
{
    let mut names: Vec<&str> = Vec::new();
    if cfg.add_hatch_vcs {
        names.push("hatch-vcs");
    }
    let ghost first = names@.map_values(|s: &str| s@);
    assert(first =~= (if cfg.add_hatch_vcs { seq!["hatch-vcs"@] } else { Seq::empty() }));
    let mut i: usize = 0;
    while i < cfg.additional_requires.len()
        invariant
            0 <= i <= cfg.additional_requires@.len(),
            names@.map_values(|s: &str| s@) =~= first + string_views(
                cfg.additional_requires@.take(i as int),
            ),
        decreases cfg.additional_requires@.len() - i,
    {
        let ghost before = names@;
        let x = cfg.additional_requires[i].as_str();
        names.push(x);
        assert(names@.map_values(|s: &str| s@) =~= before.map_values(|s: &str| s@).push(x@));
        assert(string_views(cfg.additional_requires@.take(i as int + 1)) =~= string_views(
            cfg.additional_requires@.take(i as int),
        ).push(x@));
        i = i + 1;
    }
    assert(cfg.additional_requires@.take(i as int) =~= cfg.additional_requires@);
    names
}

/// Applies the edits that `cfg` asks for to a parsed manifest.
///
/// With no edit asked for, or where the root is not a table, the document
/// is left exactly as it was.
pub fn transform_document(doc: &mut toml_edit::DocumentMut, cfg: &UvinitConfig)
    ensures
        doc_root(*old(doc)) is Tab ==> transformed(doc_root(*old(doc)), doc_root(*final(doc)), *cfg),
        doc_root(*old(doc)) is Tab ==> doc_root(*final(doc)) is Tab,
        !(doc_root(*old(doc)) is Tab) ==> *final(doc) == *old(doc),
        !edits_anything(*cfg) ==> *final(doc) == *old(doc),
{
    if !(cfg.enable_dynamic_version || cfg.add_hatch_vcs || cfg.additional_requires.len() > 0
        || cfg.enable_pytest_asyncio || cfg.enable_bandit) {
        assert(tools_edited(doc_root(*doc), *cfg) == doc_root(*doc));
        return;
    }
    match root_table_mut(doc) {
        Some(root) => edit_root(root, cfg),
        None => {},
    }
}

/// Applies the edits that `cfg` asks for to a manifest's root table.
pub(crate) fn edit_root(root: &mut toml_edit::Table, cfg: &UvinitConfig)
    ensures
        transformed(table_node(*old(root)), table_node(*final(root)), *cfg),
{
    let ghost d0 = table_node(*root);
    let ghost mut migrated_project = Node::Empty;
    if cfg.enable_dynamic_version {
        match table_get_mut(root, "project") {
            Some(item) => match item_as_table_mut(item) {
                Some(project) => {
                    migrate_version(project);
                    proof {
                        migrated_project = table_node(*project);
                    }
                },
                None => {
                    proof {
                        lemma_insert_held(d0, "project"@);
                    }
                },
            },
            None => {},
        }
    }
    let ghost dm = table_node(*root);
    assert(migrates(d0, *cfg) ==> dm == tab_insert(d0, "project"@, migrated_project));
    assert(migrates(d0, *cfg) ==> migrated(tab_get(d0, "project"@), migrated_project));
    assert(!migrates(d0, *cfg) ==> dm == d0);
    if cfg.add_hatch_vcs || cfg.additional_requires.len() > 0 {
        let names = required_list(cfg);
        match table_get_mut(root, "build-system") {
            Some(item) => match item_as_table_mut(item) {
                Some(bs) => {
                    add_strings(bs, "requires", &names);
                },
                None => {
                    proof {
                        lemma_insert_held(dm, "build-system"@);
                    }
                },
            },
            None => {},
        }
    }
    assert(table_node(*root) == requires_edited(dm, *cfg));
    if cfg.enable_dynamic_version {
        let path: Vec<&str> = vec!["tool", "hatch", "version"];
        assert(path@.map_values(|s: &str| s@).skip(0) =~= seq!["tool"@, "hatch"@, "version"@]);
        set_nested(root, &path, 0, "source", string_item("vcs"));
    }
    if cfg.enable_pytest_asyncio {
        let path: Vec<&str> = vec!["tool", "pytest", "ini_options"];
        assert(path@.map_values(|s: &str| s@).skip(0) =~= seq![
            "tool"@,
            "pytest"@,
            "ini_options"@,
        ]);
        set_nested(root, &path, 0, "asyncio_mode", string_item("auto"));
    }
    if cfg.enable_bandit {
        add_bandit_defaults(root);
    }
    assert(table_node(*root) == tools_edited(dm, *cfg));
}

/// Whether a parsed manifest's `project` table holds `dynamic`.
pub fn document_has_dynamic(doc: toml_edit::DocumentMut) -> (r: bool)
    ensures
        r == has_dynamic(doc_root(doc)),
{
    let mut doc = doc;
    match root_table_mut(&mut doc) {
        Some(root) => match table_get_mut(root, "project") {
            Some(item) => match item_as_table_mut(item) {
                Some(project) => table_contains_key(project, "dynamic"),
                None => false,
            },
            None => false,
        },
        None => false,
    }
}

/// Whether the manifest text declares `project.dynamic`: an error where
/// the text is not a TOML document.
pub fn has_project_dynamic(content: &str) -> (r: Result<bool, ManifestError>)
    ensures
        r is Err <==> parsed(content@) is None,
        parsed(content@) matches Some(d) ==> r == Ok::<bool, ManifestError>(has_dynamic(d)),
{
    match parse_document(content) {
        Ok(doc) => Ok(document_has_dynamic(doc)),
        Err(e) => Err(ManifestError::Parse(error_message(&e))),
    }
}

/// The manifest text after the edits that `cfg` asks for: an error where
/// the text is not a TOML document. With no edit asked for, the text comes
/// back as it was.
pub fn modify_pyproject_toml(content: &str, config: &UvinitConfig) -> (r: Result<String, ManifestError>)
    ensures
        r is Err <==> parsed(content@) is None,
        !edits_anything(*config) && parsed(content@) is Some ==> (r matches Ok(text) && text@
            == content@),
        edits_anything(*config) ==> (r matches Ok(text) ==> exists|d: toml_edit::DocumentMut|
            #![trigger doc_text(d)]
            transformed(parsed(content@)->0, doc_root(d), *config) && text@ == doc_text(d)),
{
    match parse_document(content) {
        Ok(doc) => {
            if !(config.enable_dynamic_version || config.add_hatch_vcs
                || config.additional_requires.len() > 0 || config.enable_pytest_asyncio
                || config.enable_bandit) {
                return Ok(content.to_owned());
            }
            let mut doc = doc;
            transform_document(&mut doc, config);
            let text = render(&doc);
            assert(transformed(parsed(content@)->0, doc_root(doc), *config) && text@ == doc_text(doc));
            Ok(text)
        },
        Err(e) => Err(ManifestError::Parse(error_message(&e))),
    }
}

/// Adding strings that an array already holds leaves it as it is, so its
/// length does not change.
pub proof fn lemma_present_strings_not_added(items: Seq<Node>, ss: Seq<Seq<char>>)
    requires
        forall|i: int| 0 <= i < ss.len() ==> items.contains(Node::Str(#[trigger] ss[i])),
    ensures
        with_strs(items, ss) == items,
        with_strs(items, ss).len() == items.len(),
    decreases ss.len(),
{
    if ss.len() > 0 {
        let init = ss.drop_last();
        assert forall|i: int| 0 <= i < init.len() implies items.contains(Node::Str(#[trigger] init[i])) by {
            assert(init[i] == ss[i]);
        }
        lemma_present_strings_not_added(items, init);
        assert(items.contains(Node::Str(ss[ss.len() - 1])));
    }
}

/// Adding to the array under `k` strings that it already holds leaves the
/// table as it is.
pub proof fn lemma_present_entries_not_added(t: Node, k: Seq<char>, ss: Seq<Seq<char>>)
    requires
        t is Tab,
        t->Tab_1.contains_key(k),
        tab_get(t, k) is Arr,
        forall|i: int| 0 <= i < ss.len() ==> tab_get(t, k)->Arr_0.contains(Node::Str(#[trigger] ss[i])),
    ensures
        with_array_strs(t, k, ss) == t,
{
    lemma_present_strings_not_added(tab_get(t, k)->Arr_0, ss);
    lemma_insert_held(t, k);
}

/// With no edit asked for, the transformer leaves the document's view as it
/// was.
pub proof fn lemma_nothing_asked(d0: Node, d1: Node, cfg: UvinitConfig)
    requires
        !edits_anything(cfg),
        transformed(d0, d1, cfg),
    ensures
        d1 == d0,
{
}

/// Edit 2 adds nothing to a `build-system.requires` array that already
/// holds every entry it would add: the array keeps its length and order.
pub proof fn lemma_requires_present(d: Node, cfg: UvinitConfig)
    requires
        d is Tab,
        tab_get(d, "build-system"@) is Tab,
        tab_get(d, "build-system"@)->Tab_1.contains_key("requires"@),
        tab_get(tab_get(d, "build-system"@), "requires"@) is Arr,
        forall|i: int|
            0 <= i < required_names(cfg).len() ==> tab_get(tab_get(d, "build-system"@), "requires"@)->Arr_0.contains(
                Node::Str(#[trigger] required_names(cfg)[i]),
            ),
    ensures
        requires_edited(d, cfg) == d,
{
    let bs = tab_get(d, "build-system"@);
    lemma_present_entries_not_added(bs, "requires"@, required_names(cfg));
    if cfg.add_hatch_vcs || cfg.additional_requires@.len() > 0 {
        lemma_insert_held(d, "build-system"@);
    }
}

/// Edit 5 adds nothing to `skips` and `exclude_dirs` arrays that already
/// hold every default: both keep their length and order.
pub proof fn lemma_bandit_present(b: Node)
    requires
        b is Tab,
        b->Tab_1.contains_key("skips"@),
        tab_get(b, "skips"@) is Arr,
        tab_get(b, "skips"@)->Arr_0.contains(Node::Str("B101"@)),
        b->Tab_1.contains_key("exclude_dirs"@),
        tab_get(b, "exclude_dirs"@) is Arr,
        tab_get(b, "exclude_dirs"@)->Arr_0.contains(Node::Str(".venv"@)),
        tab_get(b, "exclude_dirs"@)->Arr_0.contains(Node::Str("venv"@)),
        tab_get(b, "exclude_dirs"@)->Arr_0.contains(Node::Str("tests"@)),
    ensures
        bandit_defaults(b) == b,
{
    let s = seq!["B101"@];
    let e = seq![".venv"@, "venv"@, "tests"@];
    assert forall|i: int| 0 <= i < s.len() implies tab_get(b, "skips"@)->Arr_0.contains(Node::Str(#[trigger] s[i])) by {}
    lemma_present_entries_not_added(b, "skips"@, s);
    assert forall|i: int| 0 <= i < e.len() implies tab_get(b, "exclude_dirs"@)->Arr_0.contains(Node::Str(#[trigger] e[i])) by {}
    lemma_present_entries_not_added(b, "exclude_dirs"@, e);
}

} // verus!
