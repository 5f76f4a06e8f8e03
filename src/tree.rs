use vstd::prelude::*;

verus! {

/// One file of a tree: its path as a list of components, and its bytes.
#[derive(Debug, Clone)]
pub struct Entry {
    pub path: Vec<String>,
    pub content: Vec<u8>,
}

/// The component-wise view of a path.
pub open spec fn path_view(p: Seq<String>) -> Seq<Seq<char>> {
    p.map_values(|s: String| s@)
}

/// The files of a tree, from path to content. A later entry wins over an earlier one.
pub open spec fn tree_view(s: Seq<Entry>) -> Map<Seq<Seq<char>>, Seq<u8>>
    decreases s.len(),
{
    if s.len() == 0 {
        Map::empty()
    } else {
        tree_view(s.drop_last()).insert(path_view(s.last().path@), s.last().content@)
    }
}

/// Whether `k` lies in the subtree rooted at `sub` (the path `sub` itself included).
pub open spec fn under(k: Seq<Seq<char>>, sub: Seq<Seq<char>>) -> bool {
    sub.len() <= k.len() && k.take(sub.len() as int) == sub
}

/// The landing page at the root of a tree.
pub open spec fn root_index() -> Seq<Seq<char>> {
    seq![seq!['i', 'n', 'd', 'e', 'x', '.', 'h', 't', 'm', 'l']]
}

/// Whether an existing file at `k` survives a publish to `sub`.
pub open spec fn kept(k: Seq<Seq<char>>, sub: Seq<Seq<char>>, clobber_index: bool) -> bool {
    !under(k, sub) && !(clobber_index && k == root_index())
}

/// The existing files that survive a publish to `sub`.
pub open spec fn kept_files(
    old: Map<Seq<Seq<char>>, Seq<u8>>,
    sub: Seq<Seq<char>>,
    clobber_index: bool,
) -> Map<Seq<Seq<char>>, Seq<u8>> {
    Map::new(|k: Seq<Seq<char>>| kept(k, sub, clobber_index) && old.contains_key(k), |k: Seq<Seq<char>>| old[k])
}

/// The tree after publishing `docs` to `sub` over `old`: the subtree at `sub` is
/// replaced by `docs`, the root `index.html` goes when `clobber_index` is set, and
/// every other file stays as it was.
pub open spec fn published(
    old: Map<Seq<Seq<char>>, Seq<u8>>,
    sub: Seq<Seq<char>>,
    docs: Map<Seq<Seq<char>>, Seq<u8>>,
    clobber_index: bool,
) -> Map<Seq<Seq<char>>, Seq<u8>> {
    Map::new(
        |k: Seq<Seq<char>>|
            (kept(k, sub, clobber_index) && old.contains_key(k)) || (under(k, sub)
                && docs.contains_key(k.skip(sub.len() as int))),
        |k: Seq<Seq<char>>|
            if under(k, sub) {
                docs[k.skip(sub.len() as int)]
            } else {
                old[k]
            },
    )
}

/// A copy of a byte string.
pub fn copy_bytes(v: &Vec<u8>) -> (r: Vec<u8>)
    ensures
        r@ == v@,
{
    let mut r: Vec<u8> = Vec::new();
    let mut i: usize = 0;
    while i < v.len()
        invariant
            i <= v@.len(),
            r@ == v@.take(i as int),
        decreases v@.len() - i,
    {
        r.push(v[i]);
        i = i + 1;
        assert(r@ =~= v@.take(i as int));
    }
    assert(v@.take(v@.len() as int) =~= v@);
    r
}

/// The path `sub` followed by the components of `rel`.
pub fn join(sub: &Vec<String>, rel: &Vec<String>) -> (r: Vec<String>)
    ensures
        path_view(r@) == path_view(sub@) + path_view(rel@),
{
    let mut r: Vec<String> = Vec::new();
    let mut i: usize = 0;
    while i < sub.len()
        invariant
            i <= sub@.len(),
            r@.len() == i,
            forall|x: int| 0 <= x < i ==> r@[x]@ == sub@[x]@,
        decreases sub@.len() - i,
    {
        let c = sub[i].clone();
        r.push(c);
        i = i + 1;
    }
    let mut j: usize = 0;
    while j < rel.len()
        invariant
            j <= rel@.len(),
            r@.len() == sub@.len() + j,
            forall|x: int| 0 <= x < sub@.len() ==> r@[x]@ == sub@[x]@,
            forall|x: int| 0 <= x < j ==> r@[sub@.len() + x]@ == rel@[x]@,
        decreases rel@.len() - j,
    {
        let c = rel[j].clone();
        r.push(c);
        j = j + 1;
    }
    assert forall|x: int| 0 <= x < r@.len() implies path_view(r@)[x] == (path_view(sub@) + path_view(rel@))[x] by {
        if x >= sub@.len() {
            assert(r@[sub@.len() + (x - sub@.len())]@ == rel@[x - sub@.len()]@);
        }
    }
    assert(path_view(r@) =~= path_view(sub@) + path_view(rel@));
    r
}

/// Whether `k` lies in the subtree rooted at `sub`.
pub fn is_under(k: &Vec<String>, sub: &Vec<String>) -> (r: bool)
    ensures
        r == under(path_view(k@), path_view(sub@)),
{
    if sub.len() > k.len() {
        return false;
    }
    let mut i: usize = 0;
    while i < sub.len()
        invariant
            sub@.len() <= k@.len(),
            i <= sub@.len(),
            forall|j: int| 0 <= j < i ==> k@[j]@ == sub@[j]@,
        decreases sub@.len() - i,
    {
        if k[i] != sub[i] {
            assert(path_view(k@).take(sub@.len() as int)[i as int] != path_view(sub@)[i as int]);
            return false;
        }
        i = i + 1;
    }
    assert(path_view(k@).take(sub@.len() as int) =~= path_view(sub@));
    true
}

/// Whether `k` is the root `index.html`.
pub fn is_root_index(k: &Vec<String>) -> (r: bool)
    ensures
        r == (path_view(k@) == root_index()),
{
    let mut name = String::new();
    name.append("index.html");
    proof {
        reveal_strlit("index.html");
        assert(name@ =~= root_index()[0]);
    }
    if k.len() == 1 && k[0] == name {
        assert(path_view(k@) =~= root_index());
        true
    } else {
        proof {
            if path_view(k@) == root_index() {
                assert(path_view(k@).len() == k@.len());
                assert(path_view(k@)[0] == k@[0]@);
            }
        }
        false
    }
}

/// The subtree of `m` at `sub`, keyed by paths relative to `sub`.
pub open spec fn subtree(m: Map<Seq<Seq<char>>, Seq<u8>>, sub: Seq<Seq<char>>) -> Map<Seq<Seq<char>>, Seq<u8>> {
    Map::new(|rel: Seq<Seq<char>>| m.contains_key(sub + rel), |rel: Seq<Seq<char>>| m[sub + rel])
}

proof fn lemma_join_under(sub: Seq<Seq<char>>, rel: Seq<Seq<char>>)
    ensures
        under(sub + rel, sub),
        (sub + rel).skip(sub.len() as int) == rel,
{
    assert((sub + rel).take(sub.len() as int) =~= sub);
    assert((sub + rel).skip(sub.len() as int) =~= rel);
}

/// Publishing the same documentation to the same place twice gives the same tree
/// as publishing it once.
pub proof fn lemma_publish_idempotent(
    old: Map<Seq<Seq<char>>, Seq<u8>>,
    sub: Seq<Seq<char>>,
    docs: Map<Seq<Seq<char>>, Seq<u8>>,
    clobber_index: bool,
)
    ensures
        published(published(old, sub, docs, clobber_index), sub, docs, clobber_index)
            == published(old, sub, docs, clobber_index),
{
    assert(published(published(old, sub, docs, clobber_index), sub, docs, clobber_index)
        =~= published(old, sub, docs, clobber_index));
}

/// A file outside the subtree at `sub` is present and unchanged after a publish,
/// unless it is the root `index.html` and `clobber_index` is set.
pub proof fn lemma_publish_keeps_other_files(
    old: Map<Seq<Seq<char>>, Seq<u8>>,
    sub: Seq<Seq<char>>,
    docs: Map<Seq<Seq<char>>, Seq<u8>>,
    clobber_index: bool,
    k: Seq<Seq<char>>,
)
    requires
        old.contains_key(k),
        !under(k, sub),
        k != root_index() || !clobber_index,
    ensures
        published(old, sub, docs, clobber_index).contains_key(k),
        published(old, sub, docs, clobber_index)[k] == old[k],
{
}

/// After a publish, the subtree at `sub` is exactly the published documentation:
/// no file of an earlier publish that `docs` lacks survives there.
pub proof fn lemma_publish_replaces_subtree(
    old: Map<Seq<Seq<char>>, Seq<u8>>,
    sub: Seq<Seq<char>>,
    docs: Map<Seq<Seq<char>>, Seq<u8>>,
    clobber_index: bool,
)
    ensures
        subtree(published(old, sub, docs, clobber_index), sub) == docs,
{
    assert forall|rel: Seq<Seq<char>>| #![trigger docs.contains_key(rel)] true implies under(sub + rel, sub)
        && (sub + rel).skip(sub.len() as int) == rel by {
        lemma_join_under(sub, rel);
    }
    assert(subtree(published(old, sub, docs, clobber_index), sub) =~= docs);
}

/// Two publishes to subtrees that do not overlap, the second made over the tree that
/// the first left, keep both: each subtree holds exactly its documentation.
pub proof fn lemma_publish_race_keeps_both(
    old: Map<Seq<Seq<char>>, Seq<u8>>,
    sub_a: Seq<Seq<char>>,
    docs_a: Map<Seq<Seq<char>>, Seq<u8>>,
    sub_b: Seq<Seq<char>>,
    docs_b: Map<Seq<Seq<char>>, Seq<u8>>,
)
    requires
        !under(sub_a, sub_b),
        !under(sub_b, sub_a),
    ensures
        subtree(published(published(old, sub_a, docs_a, false), sub_b, docs_b, false), sub_a) == docs_a,
        subtree(published(published(old, sub_a, docs_a, false), sub_b, docs_b, false), sub_b) == docs_b,
{
    let first = published(old, sub_a, docs_a, false);
    let last = published(first, sub_b, docs_b, false);
    lemma_publish_replaces_subtree(old, sub_a, docs_a, false);
    lemma_publish_replaces_subtree(first, sub_b, docs_b, false);
    assert forall|rel: Seq<Seq<char>>| #![trigger subtree(last, sub_a).contains_key(rel)] true implies
        !under(sub_a + rel, sub_b) by {
        if under(sub_a + rel, sub_b) {
            if sub_a.len() <= sub_b.len() {
                assert(sub_b.take(sub_a.len() as int) =~= sub_a);
            } else {
                assert(sub_a.take(sub_b.len() as int) =~= (sub_a + rel).take(sub_b.len() as int));
            }
        }
    }
    assert(subtree(last, sub_a) =~= subtree(first, sub_a));
}

proof fn lemma_tree_view_push(s: Seq<Entry>, e: Entry)
    ensures
        tree_view(s.push(e)) == tree_view(s).insert(path_view(e.path@), e.content@),
{
    assert(s.push(e).drop_last() =~= s);
}

proof fn lemma_tree_view_take(s: Seq<Entry>, i: int)
    requires
        0 <= i < s.len(),
    ensures
        tree_view(s.take(i + 1)) == tree_view(s.take(i)).insert(path_view(s[i].path@), s[i].content@),
{
    assert(s.take(i + 1).drop_last() =~= s.take(i));
}

proof fn lemma_tree_view_suffix(s: Seq<Entry>, j: int, k: Seq<Seq<char>>)
    requires
        0 <= j <= s.len(),
        forall|x: int| j <= x < s.len() ==> path_view(#[trigger] s[x].path@) != k,
    ensures
        tree_view(s).contains_key(k) == tree_view(s.take(j)).contains_key(k),
        tree_view(s)[k] == tree_view(s.take(j))[k],
    decreases s.len() - j,
{
    if j == s.len() {
        assert(s.take(j) =~= s);
    } else {
        lemma_tree_view_suffix(s, j + 1, k);
        lemma_tree_view_take(s, j);
    }
}

proof fn lemma_tree_view_keys(s: Seq<Entry>, k: Seq<Seq<char>>)
    requires
        tree_view(s).contains_key(k),
    ensures
        exists|i: int| 0 <= i < s.len() && path_view(#[trigger] s[i].path@) == k,
    decreases s.len(),
{
    let last = s.len() - 1;
    if path_view(s[last].path@) != k {
        lemma_tree_view_keys(s.drop_last(), k);
        let i = choose|i: int| 0 <= i < s.drop_last().len() && path_view(#[trigger] s.drop_last()[i].path@) == k;
        assert(s[i] == s.drop_last()[i]);
    }
}

/// Whether two paths are the same.
pub fn same_path(a: &Vec<String>, b: &Vec<String>) -> (r: bool)
    ensures
        r == (path_view(a@) == path_view(b@)),
{
    if a.len() != b.len() {
        return false;
    }
    let mut i: usize = 0;
    while i < a.len()
        invariant
            a@.len() == b@.len(),
            i <= a@.len(),
            forall|j: int| 0 <= j < i ==> a@[j]@ == b@[j]@,
        decreases a@.len() - i,
    {
        if a[i] != b[i] {
            assert(path_view(a@)[i as int] != path_view(b@)[i as int]);
            return false;
        }
        i = i + 1;
    }
    assert(path_view(a@) =~= path_view(b@));
    true
}

/// Whether two byte strings are the same.
pub fn same_bytes(a: &Vec<u8>, b: &Vec<u8>) -> (r: bool)
    ensures
        r == (a@ == b@),
{
    if a.len() != b.len() {
        return false;
    }
    let mut i: usize = 0;
    while i < a.len()
        invariant
            a@.len() == b@.len(),
            i <= a@.len(),
            forall|j: int| 0 <= j < i ==> a@[j] == b@[j],
        decreases a@.len() - i,
    {
        if a[i] != b[i] {
            return false;
        }
        i = i + 1;
    }
    assert(a@ =~= b@);
    true
}

/// The index of the entry that holds `k` in the tree `s`, if any.
pub fn lookup(s: &Vec<Entry>, k: &Vec<String>) -> (r: Option<usize>)
    ensures
        r is None <==> !tree_view(s@).contains_key(path_view(k@)),
        r matches Some(i) ==> i < s@.len() && tree_view(s@)[path_view(k@)] == s@[i as int].content@,
{
    let mut j: usize = s.len();
    while j > 0
        invariant
            j <= s@.len(),
            forall|x: int| j <= x < s@.len() ==> path_view(#[trigger] s@[x].path@) != path_view(k@),
        decreases j,
    {
        if same_path(&s[j - 1].path, k) {
            proof {
                lemma_tree_view_suffix(s@, j as int, path_view(k@));
                lemma_tree_view_take(s@, j - 1);
            }
            return Some(j - 1);
        }
        j = j - 1;
    }
    proof {
        lemma_tree_view_suffix(s@, 0, path_view(k@));
    }
    None
}

/// Whether `a` and `b` hold the same files.
pub fn same_tree(a: &Vec<Entry>, b: &Vec<Entry>) -> (r: bool)
    ensures
        r == (tree_view(a@) == tree_view(b@)),
{
    let mut i: usize = 0;
    while i < a.len()
        invariant
            i <= a@.len(),
            forall|x: int| 0 <= x < i ==> {
                let k = path_view(#[trigger] a@[x].path@);
                tree_view(a@).contains_key(k) && tree_view(b@).contains_key(k)
                    && tree_view(b@)[k] == tree_view(a@)[k]
            },
        decreases a@.len() - i,
    {
        let la = lookup(a, &a[i].path);
        let lb = lookup(b, &a[i].path);
        proof {
            lemma_tree_view_contains(a@, i as int);
        }
        match (la, lb) {
            (Some(x), Some(y)) => {
                if !same_bytes(&a[x].content, &b[y].content) {
                    return false;
                }
            },
            _ => {
                return false;
            },
        }
        i = i + 1;
    }
    let mut j: usize = 0;
    while j < b.len()
        invariant
            j <= b@.len(),
            forall|x: int| 0 <= x < a@.len() ==> {
                let k = path_view(#[trigger] a@[x].path@);
                tree_view(a@).contains_key(k) && tree_view(b@).contains_key(k)
                    && tree_view(b@)[k] == tree_view(a@)[k]
            },
            forall|x: int| 0 <= x < j ==> tree_view(a@).contains_key(path_view(#[trigger] b@[x].path@)),
        decreases b@.len() - j,
    {
        proof {
            lemma_tree_view_contains(b@, j as int);
        }
        if lookup(a, &b[j].path).is_none() {
            return false;
        }
        j = j + 1;
    }
    proof {
        assert forall|k: Seq<Seq<char>>| #![trigger tree_view(a@).dom().contains(k)] #![trigger tree_view(b@).dom().contains(k)]
            tree_view(a@).dom().contains(k) == tree_view(b@).dom().contains(k) && (tree_view(a@).dom().contains(k)
                ==> tree_view(b@)[k] == tree_view(a@)[k]) by {
            if tree_view(a@).contains_key(k) {
                lemma_tree_view_keys(a@, k);
                let x = choose|x: int| 0 <= x < a@.len() && path_view(#[trigger] a@[x].path@) == k;
            }
            if tree_view(b@).contains_key(k) {
                lemma_tree_view_keys(b@, k);
                let x = choose|x: int| 0 <= x < b@.len() && path_view(#[trigger] b@[x].path@) == k;
            }
        }
        assert(tree_view(a@) =~= tree_view(b@));
    }
    true
}

proof fn lemma_tree_view_contains(s: Seq<Entry>, i: int)
    requires
        0 <= i < s.len(),
    ensures
        tree_view(s).contains_key(path_view(s[i].path@)),
    decreases s.len(),
{
    if i < s.len() - 1 {
        lemma_tree_view_contains(s.drop_last(), i);
        assert(s.drop_last()[i] == s[i]);
    }
}

/// No two entries share a path.
pub open spec fn distinct_paths(s: Seq<Entry>) -> bool {
    forall|i: int, j: int|
        0 <= i < j < s.len() ==> path_view(#[trigger] s[i].path@) != path_view(#[trigger] s[j].path@)
}

proof fn lemma_push_distinct(s: Seq<Entry>, e: Entry)
    requires
        distinct_paths(s),
        !tree_view(s).contains_key(path_view(e.path@)),
    ensures
        distinct_paths(s.push(e)),
{
    assert forall|x: int| 0 <= x < s.len() implies path_view(#[trigger] s[x].path@) != path_view(e.path@) by {
        lemma_tree_view_contains(s, x);
    }
    assert forall|x: int, y: int| 0 <= x < y < s.push(e).len() implies path_view(#[trigger] s.push(e)[x].path@)
        != path_view(#[trigger] s.push(e)[y].path@) by {
        if y == s.len() {
            assert(s.push(e)[x] == s[x]);
        } else {
            assert(s.push(e)[x] == s[x]);
            assert(s.push(e)[y] == s[y]);
        }
    }
}

proof fn lemma_new_path(s: Seq<Entry>, i: int)
    requires
        distinct_paths(s),
        0 <= i < s.len(),
    ensures
        !tree_view(s.take(i)).contains_key(path_view(s[i].path@)),
{
    let k = path_view(s[i].path@);
    if tree_view(s.take(i)).contains_key(k) {
        lemma_tree_view_keys(s.take(i), k);
        let y = choose|y: int| 0 <= y < s.take(i).len() && path_view(#[trigger] s.take(i)[y].path@) == k;
        assert(s.take(i)[y] == s[y]);
    }
}

/// Builds the tree that publishing `docs` to `sub` over `old` yields.
pub fn rebuild(old: &Vec<Entry>, sub: &Vec<String>, docs: &Vec<Entry>, clobber_index: bool) -> (r: Vec<Entry>)
    ensures
        tree_view(r@) == published(tree_view(old@), path_view(sub@), tree_view(docs@), clobber_index),
        distinct_paths(old@) && distinct_paths(docs@) ==> distinct_paths(r@),
{
    let ghost sv = path_view(sub@);
    let mut r: Vec<Entry> = Vec::new();
    let mut i: usize = 0;
    while i < old.len()
        invariant
            i <= old@.len(),
            sv == path_view(sub@),
            tree_view(r@) == kept_files(tree_view(old@.take(i as int)), sv, clobber_index),
            distinct_paths(old@) ==> distinct_paths(r@),
        decreases old@.len() - i,
    {
        let ghost before = tree_view(old@.take(i as int));
        proof {
            lemma_tree_view_take(old@, i as int);
        }
        let ghost p = path_view(old@[i as int].path@);
        let ghost c = old@[i as int].content@;
        let drop = is_under(&old[i].path, sub) || (clobber_index && is_root_index(&old[i].path));
        if !drop {
            let e = Entry { path: join(&Vec::new(), &old[i].path), content: copy_bytes(&old[i].content) };
            proof {
                assert(path_view(Seq::<String>::empty()) =~= Seq::<Seq<char>>::empty());
                assert(path_view(e.path@) =~= p);
                lemma_tree_view_push(r@, e);
                if distinct_paths(old@) {
                    lemma_new_path(old@, i as int);
                    lemma_push_distinct(r@, e);
                }
            }
            r.push(e);
            proof {
                assert(kept_files(before.insert(p, c), sv, clobber_index) =~= kept_files(before, sv, clobber_index).insert(p, c));
            }
        } else {
            proof {
                assert(kept_files(before.insert(p, c), sv, clobber_index) =~= kept_files(before, sv, clobber_index));
            }
        }
        i = i + 1;
    }
    assert(old@.take(old@.len() as int) =~= old@);
    assert(published(tree_view(old@), sv, tree_view(docs@.take(0)), clobber_index) =~= kept_files(tree_view(old@), sv, clobber_index));
    let mut j: usize = 0;
    while j < docs.len()
        invariant
            j <= docs@.len(),
            sv == path_view(sub@),
            tree_view(r@) == published(tree_view(old@), sv, tree_view(docs@.take(j as int)), clobber_index),
            distinct_paths(old@) && distinct_paths(docs@) ==> distinct_paths(r@),
        decreases docs@.len() - j,
    {
        let ghost before = tree_view(docs@.take(j as int));
        proof {
            lemma_tree_view_take(docs@, j as int);
        }
        let ghost dp = path_view(docs@[j as int].path@);
        let ghost c = docs@[j as int].content@;
        let e = Entry { path: join(sub, &docs[j].path), content: copy_bytes(&docs[j].content) };
        proof {
            lemma_tree_view_push(r@, e);
            let full = sv + dp;
            assert(full.take(sv.len() as int) =~= sv);
            assert(full.skip(sv.len() as int) =~= dp);
            assert forall|k: Seq<Seq<char>>| under(k, sv) implies (k.skip(sv.len() as int) == dp) == (k == full) by {
                if k.skip(sv.len() as int) == dp {
                    assert(k =~= full);
                }
            }
            assert(published(tree_view(old@), sv, before.insert(dp, c), clobber_index) =~= published(tree_view(old@), sv, before, clobber_index).insert(full, c));
            if distinct_paths(old@) && distinct_paths(docs@) {
                lemma_new_path(docs@, j as int);
                assert(path_view(e.path@) == full);
                lemma_push_distinct(r@, e);
            }
        }
        r.push(e);
        j = j + 1;
    }
    assert(docs@.take(docs@.len() as int) =~= docs@);
    r
}

} // verus!
