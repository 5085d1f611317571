//! Running the transformer on its own output: nothing is added or changed a
//! second time; only the order of the `project` table's keys may differ,
//! since edit 1 sorts that table again and, with `version` gone, moves
//! `dynamic` to the front.

use vstd::prelude::*;
use crate::config::UvinitConfig;
use crate::document::{Node, empty_tab, lemma_insert_held, tab_get, tab_has, tab_insert, tab_remove, tab_set_implicit};
use crate::manifest::{
    bandit_defaults, bandit_edited, ensure_tab, migrated, migrates, nested_set, reordered,
    required_names, requires_edited, tools_edited, transformed, version_array, with_array_strs,
    with_strs,
};

verus! {

/// `t` with a table under `k` (made where missing), and `f` applied to it
/// where it is a table.
pub open spec fn step(t: Node, k: Seq<char>, f: spec_fn(Node) -> Node) -> Node {
    let t1 = ensure_tab(t, k);
    let c = tab_get(t1, k);
    if c is Tab {
        tab_insert(t1, k, f(c))
    } else {
        t1
    }
}

/// The value `vcs` of `source`.
pub open spec fn vcs() -> Node {
    Node::Str("vcs"@)
}

/// The value `auto` of `asyncio_mode`.
pub open spec fn auto() -> Node {
    Node::Str("auto"@)
}

/// Edit 3 on `tool.hatch`: `version.source` set to `vcs`.
pub open spec fn hatch_inner(c: Node) -> Node {
    nested_set(tab_set_implicit(c, true), seq!["version"@], "source"@, vcs())
}

/// Edit 3 on the `tool` table.
pub open spec fn tool_hatch(w: Node) -> Node {
    nested_set(tab_set_implicit(w, true), seq!["hatch"@, "version"@], "source"@, vcs())
}

/// Edit 4 on `tool.pytest`: `ini_options.asyncio_mode` set to `auto`.
pub open spec fn pytest_inner(c: Node) -> Node {
    nested_set(tab_set_implicit(c, true), seq!["ini_options"@], "asyncio_mode"@, auto())
}

/// Edit 4 on the `tool` table.
pub open spec fn tool_pytest(w: Node) -> Node {
    nested_set(tab_set_implicit(w, true), seq!["pytest"@, "ini_options"@], "asyncio_mode"@, auto())
}

/// Edit 5 on the `tool` table.
pub open spec fn tool_bandit(w: Node) -> Node {
    step(tab_set_implicit(w, true), "bandit"@, |b: Node| bandit_defaults(b))
}

/// A tool table in which the edit under `k` (made by `f`) has been made.
pub open spec fn sub_settled(w: Node, k: Seq<char>, f: spec_fn(Node) -> Node) -> bool {
    &&& w is Tab
    &&& w->Tab_2
    &&& tab_has(w, k)
    &&& tab_get(w, k) is Tab ==> f(tab_get(w, k)) == tab_get(w, k)
}

/// An array entry to which the strings `ss` have been added.
pub open spec fn strs_settled(t: Node, k: Seq<char>, ss: Seq<Seq<char>>) -> bool {
    &&& t->Tab_1.contains_key(k)
    &&& tab_get(t, k) is Arr ==> forall|i: int|
        0 <= i < ss.len() ==> tab_get(t, k)->Arr_0.contains(Node::Str(#[trigger] ss[i]))
}

/// A root in which edit 2 has been made.
pub open spec fn requires_settled(e: Node, cfg: UvinitConfig) -> bool {
    let bs = tab_get(e, "build-system"@);
    (cfg.add_hatch_vcs || cfg.additional_requires@.len() > 0) && bs is Tab ==> strs_settled(
        bs,
        "requires"@,
        required_names(cfg),
    )
}

/// The keys that the edits use are distinct.
pub proof fn lemma_keys_differ()
    ensures
        "skips"@ != "exclude_dirs"@,
        "hatch"@ != "pytest"@,
        "hatch"@ != "bandit"@,
        "pytest"@ != "bandit"@,
        "tool"@ != "build-system"@,
        "tool"@ != "project"@,
        "build-system"@ != "project"@,
        "dynamic"@ != "version"@,
{
    reveal_strlit("skips");
    reveal_strlit("exclude_dirs");
    reveal_strlit("hatch");
    reveal_strlit("pytest");
    reveal_strlit("bandit");
    reveal_strlit("tool");
    reveal_strlit("build-system");
    reveal_strlit("project");
    reveal_strlit("dynamic");
    reveal_strlit("version");
    assert("dynamic"@[0] != "version"@[0]);
    assert("skips"@[0] != "exclude_dirs"@[0]);
    assert("hatch"@[0] != "pytest"@[0]);
    assert("hatch"@[0] != "bandit"@[0]);
    assert("pytest"@[0] != "bandit"@[0]);
    assert("tool"@[0] != "build-system"@[0]);
    assert("tool"@[0] != "project"@[0]);
    assert("build-system"@[0] != "project"@[0]);
}

/// Binding a key twice keeps the second value only.
pub proof fn lemma_insert_twice(t: Node, k: Seq<char>, a: Node, b: Node)
    requires
        t is Tab,
    ensures
        tab_insert(tab_insert(t, k, a), k, b) == tab_insert(t, k, b),
{
    assert(t->Tab_1.insert(k, a).insert(k, b) =~= t->Tab_1.insert(k, b));
}

/// What an insertion leaves of the other keys.
pub proof fn lemma_insert_frame(t: Node, k: Seq<char>, v: Node, q: Seq<char>)
    requires
        t is Tab,
        q != k,
    ensures
        tab_insert(t, k, v) is Tab,
        tab_insert(t, k, v)->Tab_2 == t->Tab_2,
        tab_get(tab_insert(t, k, v), q) == tab_get(t, q),
        tab_has(tab_insert(t, k, v), q) == tab_has(t, q),
        tab_insert(t, k, v)->Tab_1.contains_key(q) == t->Tab_1.contains_key(q),
        tab_get(tab_insert(t, k, v), k) == v,
        tab_insert(t, k, v)->Tab_1.contains_key(k),
{
}

/// What a `step` on `k` makes of `k` and leaves of the other keys.
pub proof fn lemma_step_shape(t: Node, k: Seq<char>, f: spec_fn(Node) -> Node)
    requires
        t is Tab,
        forall|c: Node| c is Tab ==> #[trigger] f(c) is Tab,
    ensures
        step(t, k, f) is Tab,
        step(t, k, f)->Tab_2 == t->Tab_2,
        tab_has(step(t, k, f), k),
        ({
            let c = tab_get(ensure_tab(t, k), k);
            tab_get(step(t, k, f), k) == if c is Tab { f(c) } else { c }
        }),
        tab_has(t, k) ==> step(t, k, f)->Tab_0 == t->Tab_0,
        forall|q: Seq<char>|
            q != k ==> {
                &&& #[trigger] tab_get(step(t, k, f), q) == tab_get(t, q)
                &&& tab_has(step(t, k, f), q) == tab_has(t, q)
                &&& step(t, k, f)->Tab_1.contains_key(q) == t->Tab_1.contains_key(q)
            },
{
    let t1 = ensure_tab(t, k);
    assert forall|q: Seq<char>| q != k implies {
        &&& #[trigger] tab_get(t1, q) == tab_get(t, q)
        &&& tab_has(t1, q) == tab_has(t, q)
        &&& t1->Tab_1.contains_key(q) == t->Tab_1.contains_key(q)
    } by {
        if !tab_has(t, k) {
            lemma_insert_frame(t, k, empty_tab(), q);
        }
    }
    let c = tab_get(t1, k);
    if c is Tab {
        assert forall|q: Seq<char>| q != k implies {
            &&& #[trigger] tab_get(step(t, k, f), q) == tab_get(t1, q)
            &&& tab_has(step(t, k, f), q) == tab_has(t1, q)
            &&& step(t, k, f)->Tab_1.contains_key(q) == t1->Tab_1.contains_key(q)
        } by {
            lemma_insert_frame(t1, k, f(c), q);
        }
    }
}

/// A `step` whose function leaves the table under `k` as it is changes
/// nothing.
pub proof fn lemma_step_fixed(t: Node, k: Seq<char>, f: spec_fn(Node) -> Node)
    requires
        t is Tab,
        tab_has(t, k),
        tab_get(t, k) is Tab ==> f(tab_get(t, k)) == tab_get(t, k),
    ensures
        step(t, k, f) == t,
{
    if tab_get(t, k) is Tab {
        lemma_insert_held(t, k);
    }
}

/// `nested_set` keeps a table a table, with its implicit mark.
pub proof fn lemma_nested_shape(t: Node, path: Seq<Seq<char>>, k: Seq<char>, v: Node)
    requires
        t is Tab,
    ensures
        nested_set(t, path, k, v) is Tab,
        nested_set(t, path, k, v)->Tab_2 == t->Tab_2,
    decreases path.len(),
{
    if path.len() > 0 {
        let t1 = ensure_tab(t, path[0]);
        let c = tab_get(t1, path[0]);
        if c is Tab {
            lemma_nested_shape(tab_set_implicit(c, true), path.drop_first(), k, v);
        }
    }
}

/// `nested_set` along a non-empty path is a `step` on its first key.
pub proof fn lemma_nested_is_step(t: Node, path: Seq<Seq<char>>, k: Seq<char>, v: Node)
    requires
        path.len() > 0,
    ensures
        nested_set(t, path, k, v) == step(
            t,
            path[0],
            |c: Node| nested_set(tab_set_implicit(c, true), path.drop_first(), k, v),
        ),
{
}

/// Setting the same key twice through the same path is setting it once.
pub proof fn lemma_nested_twice(t: Node, path: Seq<Seq<char>>, k: Seq<char>, v: Node)
    requires
        t is Tab,
    ensures
        nested_set(nested_set(t, path, k, v), path, k, v) == nested_set(t, path, k, v),
    decreases path.len(),
{
    if path.len() == 0 {
        lemma_insert_twice(t, k, v, v);
    } else {
        let rest = path.drop_first();
        let f = |c: Node| nested_set(tab_set_implicit(c, true), rest, k, v);
        assert forall|c: Node| c is Tab implies #[trigger] f(c) is Tab by {
            lemma_nested_shape(tab_set_implicit(c, true), rest, k, v);
        }
        lemma_nested_is_step(t, path, k, v);
        let r = step(t, path[0], f);
        lemma_step_shape(t, path[0], f);
        lemma_nested_is_step(r, path, k, v);
        let c = tab_get(r, path[0]);
        if c is Tab {
            let c0 = tab_get(ensure_tab(t, path[0]), path[0]);
            assert(c0 is Tab);
            let s = tab_set_implicit(c0, true);
            lemma_nested_shape(s, rest, k, v);
            assert(tab_set_implicit(c, true) == c);
            lemma_nested_twice(s, rest, k, v);
        }
        lemma_step_fixed(r, path[0], f);
    }
}

/// After strings are added, the array holds each of them and all it held.
pub proof fn lemma_strs_contain(items: Seq<Node>, ss: Seq<Seq<char>>)
    ensures
        forall|i: int| 0 <= i < ss.len() ==> with_strs(items, ss).contains(Node::Str(#[trigger] ss[i])),
        forall|x: Node| items.contains(x) ==> with_strs(items, ss).contains(x),
    decreases ss.len(),
{
    if ss.len() > 0 {
        let init = ss.drop_last();
        lemma_strs_contain(items, init);
        let prev = with_strs(items, init);
        let last = ss.last();
        if !prev.contains(Node::Str(last)) {
            assert(prev.push(Node::Str(last))[prev.len() as int] == Node::Str(last));
            assert forall|x: Node| prev.contains(x) implies prev.push(Node::Str(last)).contains(x) by {
                let j = choose|j: int| 0 <= j < prev.len() && prev[j] == x;
                assert(prev.push(Node::Str(last))[j] == x);
            }
        }
        assert forall|i: int| 0 <= i < ss.len() implies with_strs(items, ss).contains(
            Node::Str(#[trigger] ss[i]),
        ) by {
            if i < ss.len() - 1 {
                assert(init[i] == ss[i]);
            }
        }
    }
}

/// Adding strings to the array under `k` leaves them all there.
pub proof fn lemma_strs_settle(t: Node, k: Seq<char>, ss: Seq<Seq<char>>)
    requires
        t is Tab,
    ensures
        strs_settled(with_array_strs(t, k, ss), k, ss),
        with_array_strs(t, k, ss) is Tab,
        with_array_strs(t, k, ss)->Tab_2 == t->Tab_2,
{
    let a = if t->Tab_1.contains_key(k) { tab_get(t, k) } else { Node::Arr(Seq::empty()) };
    if a is Arr {
        lemma_strs_contain(a->Arr_0, ss);
    }
}

/// Adding strings that are all there already changes nothing.
pub proof fn lemma_strs_fixed(t: Node, k: Seq<char>, ss: Seq<Seq<char>>)
    requires
        t is Tab,
        strs_settled(t, k, ss),
    ensures
        with_array_strs(t, k, ss) == t,
{
    if tab_get(t, k) is Arr {
        crate::manifest::lemma_present_entries_not_added(t, k, ss);
    } else {
        lemma_insert_held(t, k);
    }
}

/// Adding strings under `k` keeps what was added under another key.
pub proof fn lemma_strs_frame(t: Node, k: Seq<char>, ss: Seq<Seq<char>>, q: Seq<char>, qs: Seq<Seq<char>>)
    requires
        t is Tab,
        q != k,
        strs_settled(t, q, qs),
    ensures
        strs_settled(with_array_strs(t, k, ss), q, qs),
{
    let a = if t->Tab_1.contains_key(k) { tab_get(t, k) } else { Node::Arr(Seq::empty()) };
    lemma_insert_frame(t, k, if a is Arr { Node::Arr(with_strs(a->Arr_0, ss)) } else { a }, q);
}

/// Adding the `tool.bandit` defaults twice is adding them once.
pub proof fn lemma_bandit_defaults_twice(b: Node)
    requires
        b is Tab,
    ensures
        bandit_defaults(b) is Tab,
        bandit_defaults(bandit_defaults(b)) == bandit_defaults(b),
{
    let s = seq!["B101"@];
    let e = seq![".venv"@, "venv"@, "tests"@];
    let b1 = with_array_strs(b, "skips"@, s);
    let b2 = with_array_strs(b1, "exclude_dirs"@, e);
    lemma_keys_differ();
    lemma_strs_settle(b, "skips"@, s);
    lemma_strs_settle(b1, "exclude_dirs"@, e);
    lemma_strs_frame(b1, "exclude_dirs"@, e, "skips"@, s);
    lemma_strs_fixed(b2, "skips"@, s);
    lemma_strs_fixed(b2, "exclude_dirs"@, e);
}

/// A sub-edit of the tool table (implicit mark set, then a `step` on
/// `key`): it settles `key`, leaves a settled table as it is, and keeps
/// another key settled.
pub proof fn lemma_sub_edit(w: Node, key: Seq<char>, f: spec_fn(Node) -> Node, k2: Seq<char>, f2: spec_fn(Node) -> Node)
    requires
        w is Tab,
        forall|c: Node| c is Tab ==> #[trigger] f(c) is Tab && f(f(c)) == f(c),
    ensures
        ({
            let g = step(tab_set_implicit(w, true), key, f);
            &&& g is Tab
            &&& g->Tab_2
            &&& sub_settled(g, key, f)
            &&& sub_settled(w, key, f) ==> g == w
            &&& k2 != key && sub_settled(w, k2, f2) ==> sub_settled(g, k2, f2)
        }),
{
    let w1 = tab_set_implicit(w, true);
    lemma_step_shape(w1, key, f);
    if sub_settled(w, key, f) {
        assert(w1 == w);
        lemma_step_fixed(w, key, f);
    }
}

/// The innermost parts of edits 3, 4 and 5 keep a table a table, and a
/// second application changes nothing.
pub proof fn lemma_inner_edits()
    ensures
        forall|c: Node| c is Tab ==> #[trigger] hatch_inner(c) is Tab && hatch_inner(hatch_inner(c)) == hatch_inner(c),
        forall|c: Node| c is Tab ==> #[trigger] pytest_inner(c) is Tab && pytest_inner(pytest_inner(c)) == pytest_inner(c),
        forall|c: Node| c is Tab ==> #[trigger] bandit_defaults(c) is Tab && bandit_defaults(bandit_defaults(c)) == bandit_defaults(c),
{
    assert forall|c: Node| c is Tab implies #[trigger] hatch_inner(c) is Tab && hatch_inner(hatch_inner(c)) == hatch_inner(c) by {
        let s = tab_set_implicit(c, true);
        lemma_nested_shape(s, seq!["version"@], "source"@, vcs());
        let h = hatch_inner(c);
        assert(tab_set_implicit(h, true) == h);
        lemma_nested_twice(s, seq!["version"@], "source"@, vcs());
    }
    assert forall|c: Node| c is Tab implies #[trigger] pytest_inner(c) is Tab && pytest_inner(pytest_inner(c)) == pytest_inner(c) by {
        let s = tab_set_implicit(c, true);
        lemma_nested_shape(s, seq!["ini_options"@], "asyncio_mode"@, auto());
        let h = pytest_inner(c);
        assert(tab_set_implicit(h, true) == h);
        lemma_nested_twice(s, seq!["ini_options"@], "asyncio_mode"@, auto());
    }
    assert forall|c: Node| c is Tab implies #[trigger] bandit_defaults(c) is Tab && bandit_defaults(bandit_defaults(c)) == bandit_defaults(c) by {
        lemma_bandit_defaults_twice(c);
    }
}

/// The three tool edits, each as a sub-edit of the tool table.
pub proof fn lemma_tool_edits_are_steps(w: Node)
    ensures
        tool_hatch(w) == step(tab_set_implicit(w, true), "hatch"@, |c: Node| hatch_inner(c)),
        tool_pytest(w) == step(tab_set_implicit(w, true), "pytest"@, |c: Node| pytest_inner(c)),
        tool_bandit(w) == step(tab_set_implicit(w, true), "bandit"@, |c: Node| bandit_defaults(c)),
{
    assert(seq!["hatch"@, "version"@].drop_first() =~= seq!["version"@]);
    assert(seq!["pytest"@, "ini_options"@].drop_first() =~= seq!["ini_options"@]);
}

/// The root-level edits 3, 4 and 5, each as a step on `tool`.
pub proof fn lemma_root_edits_are_steps(e: Node)
    ensures
        nested_set(e, seq!["tool"@, "hatch"@, "version"@], "source"@, vcs()) == step(e, "tool"@, |w: Node| tool_hatch(w)),
        nested_set(e, seq!["tool"@, "pytest"@, "ini_options"@], "asyncio_mode"@, auto()) == step(e, "tool"@, |w: Node| tool_pytest(w)),
        bandit_edited(e) == step(e, "tool"@, |w: Node| tool_bandit(w)),
{
    assert(seq!["tool"@, "hatch"@, "version"@].drop_first() =~= seq!["hatch"@, "version"@]);
    assert(seq!["tool"@, "pytest"@, "ini_options"@].drop_first() =~= seq!["pytest"@, "ini_options"@]);
}

/// A root whose tool table holds what the sub-edit `f` makes under `key`.
pub open spec fn root_sub(e: Node, key: Seq<char>, f: spec_fn(Node) -> Node) -> bool {
    &&& e is Tab
    &&& tab_has(e, "tool"@)
    &&& tab_get(e, "tool"@) is Tab ==> sub_settled(tab_get(e, "tool"@), key, f)
}

/// A root on which edits 2 to 5 change nothing.
pub open spec fn settled(e: Node, cfg: UvinitConfig) -> bool {
    &&& e is Tab
    &&& requires_settled(e, cfg)
    &&& cfg.enable_dynamic_version ==> root_sub(e, "hatch"@, |c: Node| hatch_inner(c))
    &&& cfg.enable_pytest_asyncio ==> root_sub(e, "pytest"@, |c: Node| pytest_inner(c))
    &&& cfg.enable_bandit ==> root_sub(e, "bandit"@, |c: Node| bandit_defaults(c))
}

/// A root-level tool edit: it makes the sub-edit `f` under `key` settled,
/// keeps the other settled sub-edits, leaves a settled root as it is, and
/// touches no key but `tool`.
pub proof fn lemma_root_edit(
    e: Node,
    g: spec_fn(Node) -> Node,
    key: Seq<char>,
    f: spec_fn(Node) -> Node,
    k2: Seq<char>,
    f2: spec_fn(Node) -> Node,
)
    requires
        e is Tab,
        forall|c: Node| c is Tab ==> #[trigger] f(c) is Tab && f(f(c)) == f(c),
        forall|w: Node| #[trigger] g(w) == step(tab_set_implicit(w, true), key, f),
    ensures
        step(e, "tool"@, g) is Tab,
        step(e, "tool"@, g)->Tab_2 == e->Tab_2,
        root_sub(step(e, "tool"@, g), key, f),
        root_sub(e, key, f) ==> step(e, "tool"@, g) == e,
        k2 != key && root_sub(e, k2, f2) ==> root_sub(step(e, "tool"@, g), k2, f2),
        forall|q: Seq<char>|
            q != "tool"@ ==> {
                &&& #[trigger] tab_get(step(e, "tool"@, g), q) == tab_get(e, q)
                &&& tab_has(step(e, "tool"@, g), q) == tab_has(e, q)
                &&& step(e, "tool"@, g)->Tab_1.contains_key(q) == e->Tab_1.contains_key(q)
            },
        tab_has(e, "tool"@) ==> step(e, "tool"@, g)->Tab_0 == e->Tab_0,
{
    assert forall|w: Node| w is Tab implies #[trigger] g(w) is Tab by {
        lemma_sub_edit(w, key, f, k2, f2);
    }
    lemma_step_shape(e, "tool"@, g);
    let c = tab_get(ensure_tab(e, "tool"@), "tool"@);
    if c is Tab {
        lemma_sub_edit(c, key, f, k2, f2);
    }
    if root_sub(e, key, f) {
        let w = tab_get(e, "tool"@);
        if w is Tab {
            lemma_sub_edit(w, key, f, k2, f2);
        }
        lemma_step_fixed(e, "tool"@, g);
    }
}

/// Edit 2 leaves the requirements in place, leaves a root where they are
/// already in place as it is, and touches no key but `build-system`.
pub proof fn lemma_requires_edit(e: Node, cfg: UvinitConfig)
    requires
        e is Tab,
    ensures
        requires_edited(e, cfg) is Tab,
        requires_edited(e, cfg)->Tab_0 == e->Tab_0,
        requires_edited(e, cfg)->Tab_2 == e->Tab_2,
        requires_settled(requires_edited(e, cfg), cfg),
        requires_settled(e, cfg) ==> requires_edited(e, cfg) == e,
        forall|q: Seq<char>|
            q != "build-system"@ ==> {
                &&& #[trigger] tab_get(requires_edited(e, cfg), q) == tab_get(e, q)
                &&& tab_has(requires_edited(e, cfg), q) == tab_has(e, q)
                &&& requires_edited(e, cfg)->Tab_1.contains_key(q) == e->Tab_1.contains_key(q)
            },
{
    let bs = tab_get(e, "build-system"@);
    if (cfg.add_hatch_vcs || cfg.additional_requires@.len() > 0) && bs is Tab {
        let w = with_array_strs(bs, "requires"@, required_names(cfg));
        lemma_strs_settle(bs, "requires"@, required_names(cfg));
        assert forall|q: Seq<char>| q != "build-system"@ implies {
            &&& #[trigger] tab_get(requires_edited(e, cfg), q) == tab_get(e, q)
            &&& tab_has(requires_edited(e, cfg), q) == tab_has(e, q)
            &&& requires_edited(e, cfg)->Tab_1.contains_key(q) == e->Tab_1.contains_key(q)
        } by {
            lemma_insert_frame(e, "build-system"@, w, q);
        }
        if requires_settled(e, cfg) {
            lemma_strs_fixed(bs, "requires"@, required_names(cfg));
            lemma_insert_held(e, "build-system"@);
        }
    }
}

/// Edits 2 to 5 leave a settled root, and change no key but
/// `build-system` and `tool`.
pub proof fn lemma_tools_settle(x: Node, cfg: UvinitConfig)
    requires
        x is Tab,
    ensures
        settled(tools_edited(x, cfg), cfg),
        tab_get(tools_edited(x, cfg), "project"@) == tab_get(x, "project"@),
        tools_edited(x, cfg)->Tab_1.contains_key("project"@) == x->Tab_1.contains_key("project"@),
{
    lemma_keys_differ();
    lemma_inner_edits();
    let fh = |c: Node| hatch_inner(c);
    let fp = |c: Node| pytest_inner(c);
    let fb = |c: Node| bandit_defaults(c);
    let gh = |w: Node| tool_hatch(w);
    let gp = |w: Node| tool_pytest(w);
    let gb = |w: Node| tool_bandit(w);
    assert forall|w: Node| #[trigger] gh(w) == step(tab_set_implicit(w, true), "hatch"@, fh) by {
        lemma_tool_edits_are_steps(w);
    }
    assert forall|w: Node| #[trigger] gp(w) == step(tab_set_implicit(w, true), "pytest"@, fp) by {
        lemma_tool_edits_are_steps(w);
    }
    assert forall|w: Node| #[trigger] gb(w) == step(tab_set_implicit(w, true), "bandit"@, fb) by {
        lemma_tool_edits_are_steps(w);
    }
    let d2 = requires_edited(x, cfg);
    lemma_requires_edit(x, cfg);
    let d3 = if cfg.enable_dynamic_version {
        nested_set(d2, seq!["tool"@, "hatch"@, "version"@], "source"@, vcs())
    } else {
        d2
    };
    if cfg.enable_dynamic_version {
        lemma_root_edits_are_steps(d2);
        lemma_root_edit(d2, gh, "hatch"@, fh, "pytest"@, fp);
    }
    assert(requires_settled(d3, cfg));
    let d4 = if cfg.enable_pytest_asyncio {
        nested_set(d3, seq!["tool"@, "pytest"@, "ini_options"@], "asyncio_mode"@, auto())
    } else {
        d3
    };
    if cfg.enable_pytest_asyncio {
        lemma_root_edits_are_steps(d3);
        lemma_root_edit(d3, gp, "pytest"@, fp, "hatch"@, fh);
    }
    assert(requires_settled(d4, cfg));
    if cfg.enable_bandit {
        lemma_root_edits_are_steps(d4);
        lemma_root_edit(d4, gb, "bandit"@, fb, "hatch"@, fh);
        lemma_root_edit(d4, gb, "bandit"@, fb, "pytest"@, fp);
    }
}

/// A settled root is left as it is by edits 2 to 5.
pub proof fn lemma_settled_fixed(z: Node, cfg: UvinitConfig)
    requires
        settled(z, cfg),
    ensures
        tools_edited(z, cfg) == z,
{
    lemma_keys_differ();
    lemma_inner_edits();
    let fh = |c: Node| hatch_inner(c);
    let fp = |c: Node| pytest_inner(c);
    let fb = |c: Node| bandit_defaults(c);
    let gh = |w: Node| tool_hatch(w);
    let gp = |w: Node| tool_pytest(w);
    let gb = |w: Node| tool_bandit(w);
    assert forall|w: Node| #[trigger] gh(w) == step(tab_set_implicit(w, true), "hatch"@, fh) by {
        lemma_tool_edits_are_steps(w);
    }
    assert forall|w: Node| #[trigger] gp(w) == step(tab_set_implicit(w, true), "pytest"@, fp) by {
        lemma_tool_edits_are_steps(w);
    }
    assert forall|w: Node| #[trigger] gb(w) == step(tab_set_implicit(w, true), "bandit"@, fb) by {
        lemma_tool_edits_are_steps(w);
    }
    lemma_requires_edit(z, cfg);
    lemma_root_edits_are_steps(z);
    if cfg.enable_dynamic_version {
        lemma_root_edit(z, gh, "hatch"@, fh, "pytest"@, fp);
    }
    if cfg.enable_pytest_asyncio {
        lemma_root_edit(z, gp, "pytest"@, fp, "hatch"@, fh);
    }
    if cfg.enable_bandit {
        lemma_root_edit(z, gb, "bandit"@, fb, "hatch"@, fh);
    }
}

/// Replacing what `project` holds keeps a root settled.
pub proof fn lemma_settled_project(z: Node, p: Node, cfg: UvinitConfig)
    requires
        settled(z, cfg),
    ensures
        settled(tab_insert(z, "project"@, p), cfg),
{
    lemma_keys_differ();
    lemma_insert_frame(z, "project"@, p, "tool"@);
    lemma_insert_frame(z, "project"@, p, "build-system"@);
}

/// Keeping the elements that all satisfy `pred` keeps the sequence.
pub proof fn lemma_filter_all(s: Seq<Seq<char>>, pred: spec_fn(Seq<char>) -> bool)
    requires
        forall|i: int| 0 <= i < s.len() ==> pred(#[trigger] s[i]),
    ensures
        s.filter(pred) == s,
    decreases s.len(),
{
    reveal(Seq::filter);
    if s.len() > 0 {
        let init = s.drop_last();
        assert forall|i: int| 0 <= i < init.len() implies pred(#[trigger] init[i]) by {
            assert(init[i] == s[i]);
        }
        lemma_filter_all(init, pred);
        assert(init.push(s.last()) =~= s);
    }
}

/// Edit 1 made on its own output only reorders the table.
pub proof fn lemma_migrated_twice(p0: Node, p1: Node, p2: Node)
    requires
        migrated(p0, p1),
        migrated(p1, p2),
    ensures
        reordered(p1, p2),
{
    lemma_keys_differ();
    let va = version_array();
    let s1 = choose|s: Node| reordered(tab_insert(p0, "dynamic"@, va), s) && p1 == tab_remove(s, "version"@);
    let s2 = choose|s: Node| reordered(tab_insert(p1, "dynamic"@, va), s) && p2 == tab_remove(s, "version"@);
    let k1 = s1->Tab_0;
    let pred = |x: Seq<char>| x != "version"@;
    assert(p1->Tab_0 == k1.filter(pred));
    assert forall|i: int| 0 <= i < p1->Tab_0.len() implies p1->Tab_0[i] != "version"@ by {
        k1.lemma_filter_pred(pred, i);
    }
    assert(!p1->Tab_0.contains("version"@));
    assert(p1->Tab_1.contains_key("dynamic"@));
    assert(p1->Tab_1["dynamic"@] == va);
    lemma_insert_held(p1, "dynamic"@);
    assert(tab_insert(p1, "dynamic"@, va) == p1);
    let k2 = s2->Tab_0;
    p1->Tab_0.to_multiset_ensures();
    k2.to_multiset_ensures();
    assert(reordered(p1, s2));
    assert(p1->Tab_0.to_multiset().count("version"@) == 0);
    assert(k2.to_multiset() == p1->Tab_0.to_multiset());
    assert(k2.to_multiset().count("version"@) == 0);
    assert(!k2.contains("version"@));
    assert forall|i: int| 0 <= i < k2.len() implies pred(#[trigger] k2[i]) by {
        assert(k2.contains(k2[i]));
    }
    lemma_filter_all(k2, pred);
    assert(s2->Tab_1.remove("version"@) =~= s2->Tab_1);
    assert(p2 == s2);
}

/// Running the transformer on its own output changes nothing but, at
/// most, the order of the `project` table's entries: every key keeps what
/// it holds (a nested table of `project` stays a table), nothing is added
/// and the root keeps its keys in order.
pub proof fn lemma_second_run(d0: Node, d1: Node, d2: Node, cfg: UvinitConfig)
    requires
        d0 is Tab,
        transformed(d0, d1, cfg),
        transformed(d1, d2, cfg),
    ensures
        d2 == d1 || exists|p: Node|
            reordered(tab_get(d1, "project"@), p) && d2 == tab_insert(d1, "project"@, p),
{
    lemma_keys_differ();
    if migrates(d0, cfg) {
        let p1 = choose|p: Node| migrated(tab_get(d0, "project"@), p) && d1 == tools_edited(
            tab_insert(d0, "project"@, p),
            cfg,
        );
        let x1 = tab_insert(d0, "project"@, p1);
        lemma_tools_settle(x1, cfg);
        let s1 = choose|s: Node| reordered(tab_insert(tab_get(d0, "project"@), "dynamic"@, version_array()), s) && p1 == tab_remove(s, "version"@);
        assert(p1 is Tab);
        assert(tab_get(d1, "project"@) == p1);
        assert(migrates(d1, cfg));
        let p2 = choose|p: Node| migrated(tab_get(d1, "project"@), p) && d2 == tools_edited(
            tab_insert(d1, "project"@, p),
            cfg,
        );
        lemma_settled_project(d1, p2, cfg);
        lemma_settled_fixed(tab_insert(d1, "project"@, p2), cfg);
        lemma_migrated_twice(tab_get(d0, "project"@), p1, p2);
        assert(reordered(tab_get(d1, "project"@), p2) && d2 == tab_insert(d1, "project"@, p2));
    } else {
        lemma_tools_settle(d0, cfg);
        assert(!migrates(d1, cfg));
        lemma_settled_fixed(d1, cfg);
    }
}

} // verus!
