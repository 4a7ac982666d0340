//! TOML documents describing an API, and how extensions merge into them.
use vstd::prelude::*;

verus! {

/// `toml::Value`, carried through as an opaque value.
#[verifier::external_type_specification]
#[verifier::external_body]
pub struct ExTomlValue(toml::Value);

/// A TOML value, as far as merging sees it: a table of keyed values, in
/// order, or a value of another kind, held as its TOML text.
pub enum TomlValue {
    Table(Vec<(String, TomlValue)>),
    Leaf(String),
}

/// The mathematical content of a [`TomlValue`].
pub enum TomlTree {
    Table(Seq<(Seq<char>, TomlTree)>),
    Leaf(Seq<char>),
}

/// The content of a TOML value.
pub open spec fn tree(v: TomlValue) -> TomlTree
    decreases v,
{
    match v {
        TomlValue::Table(es) => TomlTree::Table(entries_tree(es@)),
        TomlValue::Leaf(s) => TomlTree::Leaf(s@),
    }
}

/// The content of the entries of a TOML table, in order.
pub open spec fn entries_tree(es: Seq<(String, TomlValue)>) -> Seq<(Seq<char>, TomlTree)>
    decreases es,
{
    if es.len() == 0 {
        Seq::empty()
    } else {
        entries_tree(es.drop_last()).push((es.last().0@, tree(es.last().1)))
    }
}

/// The position of the first entry with key `k`, if any.
pub open spec fn index_of_key(s: Seq<(Seq<char>, TomlTree)>, k: Seq<char>) -> Option<int>
    decreases s.len(),
{
    if s.len() == 0 {
        None
    } else {
        match index_of_key(s.drop_last(), k) {
            Some(i) => Some(i),
            None => if s.last().0 == k {
                Some(s.len() - 1)
            } else {
                None
            },
        }
    }
}

/// `into` once `from` is merged into it: where both are tables, each entry
/// of `from` in turn is merged into the entry of `into` with the same key,
/// or added at the end if there is none; otherwise `into` is kept as it is.
pub open spec fn merge_tree(into: TomlTree, from: TomlValue) -> TomlTree
    decreases from,
{
    match into {
        TomlTree::Table(a) => match from {
            TomlValue::Table(b) => TomlTree::Table(merge_entries(a, b@)),
            TomlValue::Leaf(_) => into,
        },
        TomlTree::Leaf(_) => into,
    }
}

/// The entries `a` once each entry of `b` in turn is merged into them.
pub open spec fn merge_entries(a: Seq<(Seq<char>, TomlTree)>, b: Seq<(String, TomlValue)>) -> Seq<
    (Seq<char>, TomlTree),
>
    decreases b,
{
    if b.len() == 0 {
        a
    } else {
        let acc = merge_entries(a, b.drop_last());
        let k = b.last().0@;
        match index_of_key(acc, k) {
            Some(i) => acc.update(i, (k, merge_tree(acc[i].1, b.last().1))),
            None => acc.push((k, tree(b.last().1))),
        }
    }
}

proof fn lemma_index_of_key(s: Seq<(Seq<char>, TomlTree)>, k: Seq<char>)
    ensures
        index_of_key(s, k) matches Some(i) ==> 0 <= i < s.len() && s[i].0 == k && forall|j: int|
            0 <= j < i ==> s[j].0 != k,
        index_of_key(s, k) is None ==> forall|j: int| 0 <= j < s.len() ==> s[j].0 != k,
    decreases s.len(),
{
    if s.len() > 0 {
        let d = s.drop_last();
        lemma_index_of_key(d, k);
        assert(forall|j: int| 0 <= j < d.len() ==> d[j] == s[j]);
    }
}

proof fn lemma_entries_tree(es: Seq<(String, TomlValue)>)
    ensures
        entries_tree(es).len() == es.len(),
        forall|i: int|
            0 <= i < es.len() ==> #[trigger] entries_tree(es)[i] == (es[i].0@, tree(es[i].1)),
    decreases es.len(),
{
    if es.len() > 0 {
        lemma_entries_tree(es.drop_last());
    }
}

/// The position of the first entry of `entries` with key `key`, if any.
fn find_key(entries: &Vec<(String, TomlValue)>, key: &String) -> (r: Option<usize>)
    ensures
        r matches Some(i) ==> index_of_key(entries_tree(entries@), key@) == Some(i as int),
        r is None ==> index_of_key(entries_tree(entries@), key@) is None,
{
    proof {
        lemma_entries_tree(entries@);
        lemma_index_of_key(entries_tree(entries@), key@);
    }
    let mut i: usize = 0;
    while i < entries.len()
        invariant
            i <= entries@.len(),
            forall|j: int| 0 <= j < i ==> entries@[j].0@ != key@,
        decreases entries@.len() - i,
    {
        if entries[i].0 == *key {
            proof {
                lemma_entries_tree(entries@);
                lemma_index_of_key(entries_tree(entries@), key@);
                let s = entries_tree(entries@);
                assert(forall|j: int| 0 <= j < i ==> s[j].0 != key@);
                assert(s[i as int].0 == key@);
                if let Some(x) = index_of_key(s, key@) {
                    assert(x == i);
                }
            }
            return Some(i);
        }
        i = i + 1;
    }
    proof {
        lemma_entries_tree(entries@);
        lemma_index_of_key(entries_tree(entries@), key@);
        let s = entries_tree(entries@);
        assert(forall|j: int| 0 <= j < s.len() ==> s[j].0 != key@);
    }
    None
}

/// `into` with `from` merged into it, as [`merge_tree`] says.
pub fn merged(into: TomlValue, from: TomlValue) -> (r: TomlValue)
    ensures
        tree(r) == merge_tree(tree(into), from),
    decreases from,
{
    match into {
        TomlValue::Table(a) => match from {
            TomlValue::Table(b) => {
                let ghost a0 = a@;
                let ghost b0 = b@;
                let ghost borig = b;
                let mut a = a;
                let mut b = b;
                let mut j: usize = 0;
                proof {
                    assert(b0.take(0) =~= Seq::<(String, TomlValue)>::empty());
                    assert(b0.skip(0) =~= b0);
                }
                while b.len() > 0
                    invariant
                        j <= b0.len(),
                        b@ == b0.skip(j as int),
                        entries_tree(a@) == merge_entries(entries_tree(a0), b0.take(j as int)),
                        b0 == borig@,
                        b0.len() == borig.len(),
                        from == TomlValue::Table(borig),
                    decreases b@.len(),
                {
                    let ghost a_before = a@;
                    let ghost acc = entries_tree(a@);
                    let (key, value) = b.remove(0);
                    proof {
                        assert(b0[j as int] == (key, value));
                        assert(b0.take(j + 1).drop_last() =~= b0.take(j as int));
                        assert(b0.take(j + 1).last() == b0[j as int]);
                        lemma_entries_tree(a_before);
                    }
                    match find_key(&a, &key) {
                        Some(i) => {
                            proof {
                                lemma_index_of_key(acc, key@);
                            }
                            let (k, child) = a.remove(i);
                            proof {
                                assert(from->Table_0 == borig);
                                assert(decreases_to!(from => from->Table_0));
                                assert(decreases_to!(borig => borig@));
                                assert(decreases_to!(borig@ => borig@[j as int]));
                                assert(decreases_to!(borig@[j as int] => borig@[j as int].1));
                                assert(borig@[j as int].1 == value);
                            }
                            let m = merged(child, value);
                            a.insert(i, (k, m));
                            proof {
                                assert(a@ =~= a_before.update(i as int, (k, m)));
                                lemma_entries_tree(a@);
                                assert(acc[i as int] == (k@, tree(child)));
                                assert(entries_tree(a@) =~= acc.update(
                                    i as int,
                                    (key@, merge_tree(acc[i as int].1, value)),
                                ));
                            }
                        },
                        None => {
                            a.push((key, value));
                            proof {
                                assert(a@.drop_last() =~= a_before);
                            }
                        },
                    }
                    j = j + 1;
                    proof {
                        assert(b@ =~= b0.skip(j as int));
                    }
                }
                proof {
                    assert(b0.take(b0.len() as int) =~= b0);
                }
                TomlValue::Table(a)
            },
            TomlValue::Leaf(_) => TomlValue::Table(a),
        },
        TomlValue::Leaf(s) => TomlValue::Leaf(s),
    }
}

/// Merge `from` into `into`, as [`merge_tree`] says.
pub fn merge_toml(into: &mut TomlValue, from: TomlValue)
    ensures
        tree(*final(into)) == merge_tree(tree(*old(into)), from),
{
    let mut current = TomlValue::Leaf(String::new());
    std::mem::swap(&mut current, into);
    *into = merged(current, from);
}

/// `t` once each of `extensions` in turn is merged into it.
pub open spec fn merge_all(t: TomlTree, extensions: Seq<TomlValue>) -> TomlTree
    decreases extensions.len(),
{
    if extensions.len() == 0 {
        t
    } else {
        merge_tree(merge_all(t, extensions.drop_last()), extensions.last())
    }
}

/// The document `toml` once each of `extensions` in turn is merged into it.
pub fn merge_extensions(toml: TomlValue, extensions: Vec<TomlValue>) -> (r: TomlValue)
    ensures
        tree(r) == merge_all(tree(toml), extensions@),
{
    let ghost e0 = extensions@;
    let n: usize = extensions.len();
    let mut toml = toml;
    let mut rest = extensions;
    let mut j: usize = 0;
    proof {
        assert(e0.take(0) =~= Seq::<TomlValue>::empty());
        assert(e0.skip(0) =~= e0);
    }
    let ghost t0 = tree(toml);
    while rest.len() > 0
        invariant
            j <= e0.len(),
            e0.len() == n,
            rest@ == e0.skip(j as int),
            tree(toml) == merge_all(t0, e0.take(j as int)),
        decreases rest@.len(),
    {
        let extension = rest.remove(0);
        proof {
            assert(e0[j as int] == extension);
            assert(e0.take(j + 1).drop_last() =~= e0.take(j as int));
        }
        merge_toml(&mut toml, extension);
        j = j + 1;
        proof {
            assert(rest@ =~= e0.skip(j as int));
        }
    }
    proof {
        assert(e0.take(e0.len() as int) =~= e0);
    }
    toml
}

/// Merging keeps every entry of the table merged into in its place, under
/// its key; an entry holding a value that is not a table keeps that value,
/// so a value already set is never overwritten. Entries added come after.
pub proof fn law_merge_keeps_entries(a: Seq<(Seq<char>, TomlTree)>, b: Seq<(String, TomlValue)>)
    ensures
        merge_entries(a, b).len() >= a.len(),
        forall|i: int| 0 <= i < a.len() ==> #[trigger] merge_entries(a, b)[i].0 == a[i].0,
        forall|i: int|
            0 <= i < a.len() && a[i].1 is Leaf ==> #[trigger] merge_entries(a, b)[i] == a[i],
    decreases b.len(),
{
    if b.len() > 0 {
        law_merge_keeps_entries(a, b.drop_last());
        let acc = merge_entries(a, b.drop_last());
        let k = b.last().0@;
        lemma_index_of_key(acc, k);
        let m = merge_entries(a, b);
        assert forall|i: int| 0 <= i < a.len() && a[i].1 is Leaf implies #[trigger] m[i] == a[i] by {
            assert(acc[i] == a[i]);
            if index_of_key(acc, k) == Some(i) {
                assert(m[i] == (k, merge_tree(acc[i].1, b.last().1)));
            }
        }
    }
}

/// The keys of the entries `s`.
pub open spec fn keys_of(s: Seq<(Seq<char>, TomlTree)>) -> Set<Seq<char>> {
    s.map_values(|e: (Seq<char>, TomlTree)| e.0).to_set()
}

/// The keys of the entries `b` of a table being merged in.
pub open spec fn merged_keys(b: Seq<(String, TomlValue)>) -> Set<Seq<char>> {
    b.map_values(|e: (String, TomlValue)| e.0@).to_set()
}

/// The keys of a merged table are those of both tables.
pub proof fn law_merge_unites_keys(a: Seq<(Seq<char>, TomlTree)>, b: Seq<(String, TomlValue)>)
    ensures
        keys_of(merge_entries(a, b)) == keys_of(a).union(merged_keys(b)),
    decreases b.len(),
{
    if b.len() == 0 {
        assert(b.map_values(|e: (String, TomlValue)| e.0@) =~= Seq::<Seq<char>>::empty());
        assert(merged_keys(b) =~= Set::<Seq<char>>::empty());
        assert(keys_of(a).union(merged_keys(b)) =~= keys_of(a));
    } else {
        let d = b.drop_last();
        law_merge_unites_keys(a, d);
        let acc = merge_entries(a, d);
        let k = b.last().0@;
        lemma_index_of_key(acc, k);
        let bk = b.map_values(|e: (String, TomlValue)| e.0@);
        let dk = d.map_values(|e: (String, TomlValue)| e.0@);
        assert(bk =~= dk.push(k));
        dk.lemma_push_to_set_commute(k);
        assert(merged_keys(b) == merged_keys(d).insert(k));
        let ak = acc.map_values(|e: (Seq<char>, TomlTree)| e.0);
        match index_of_key(acc, k) {
            Some(x) => {
                let m = merge_entries(a, b);
                assert(m.map_values(|e: (Seq<char>, TomlTree)| e.0) =~= ak);
                assert(ak[x] == k);
                assert(keys_of(acc).contains(k));
                assert(keys_of(m) =~= keys_of(a).union(merged_keys(b)));
            },
            None => {
                let m = merge_entries(a, b);
                assert(m.map_values(|e: (Seq<char>, TomlTree)| e.0) =~= ak.push(k));
                ak.lemma_push_to_set_commute(k);
                assert(keys_of(m) =~= keys_of(a).union(merged_keys(b)));
            },
        }
    }
}

/// The first entry of `s` with key `k` is at `p` when `p` holds `k` and no
/// entry before it does.
proof fn lemma_first_key(s: Seq<(Seq<char>, TomlTree)>, k: Seq<char>, p: int)
    requires
        0 <= p < s.len(),
        s[p].0 == k,
        forall|j: int| 0 <= j < p ==> s[j].0 != k,
    ensures
        index_of_key(s, k) == Some(p),
{
    lemma_index_of_key(s, k);
    if let Some(q) = index_of_key(s, k) {
        if q > p {
            assert(s[p].0 == k);
        }
    }
}

/// A key is among the keys of `s` exactly when some entry of `s` holds it.
proof fn lemma_keys_of(s: Seq<(Seq<char>, TomlTree)>, k: Seq<char>)
    ensures
        keys_of(s).contains(k) <==> exists|i: int| 0 <= i < s.len() && #[trigger] s[i].0 == k,
{
    let m = s.map_values(|e: (Seq<char>, TomlTree)| e.0);
    if keys_of(s).contains(k) {
        assert(m.contains(k));
        let i = choose|i: int| 0 <= i < m.len() && m[i] == k;
        assert(s[i].0 == k);
    }
    if exists|i: int| 0 <= i < s.len() && #[trigger] s[i].0 == k {
        let i = choose|i: int| 0 <= i < s.len() && #[trigger] s[i].0 == k;
        assert(m[i] == k);
        assert(m.contains(k));
    }
}

/// A key is among the keys merged in exactly when some entry of `b` holds it.
proof fn lemma_merged_keys(b: Seq<(String, TomlValue)>, k: Seq<char>)
    ensures
        merged_keys(b).contains(k) <==> exists|i: int| 0 <= i < b.len() && #[trigger] b[i].0@ == k,
{
    let m = b.map_values(|e: (String, TomlValue)| e.0@);
    if merged_keys(b).contains(k) {
        assert(m.contains(k));
        let i = choose|i: int| 0 <= i < m.len() && m[i] == k;
        assert(b[i].0@ == k);
    }
    if exists|i: int| 0 <= i < b.len() && #[trigger] b[i].0@ == k {
        let i = choose|i: int| 0 <= i < b.len() && #[trigger] b[i].0@ == k;
        assert(m[i] == k);
        assert(m.contains(k));
    }
}

/// A key that merging adds to a table, where the table had no such key and
/// the entries merged in give it once, holds exactly the value merged in:
/// a new table comes in whole, with all its contents.
pub proof fn law_merge_adds_new_keys_whole(a: Seq<(Seq<char>, TomlTree)>, b: Seq<(String, TomlValue)>, j: int)
    requires
        0 <= j < b.len(),
        !keys_of(a).contains(b[j].0@),
        forall|i: int| 0 <= i < b.len() && i != j ==> #[trigger] b[i].0@ != b[j].0@,
    ensures
        index_of_key(merge_entries(a, b), b[j].0@) matches Some(p) && merge_entries(a, b)[p] == (
            b[j].0@,
            tree(b[j].1),
        ),
    decreases b.len(),
{
    let k = b[j].0@;
    let d = b.drop_last();
    let acc = merge_entries(a, d);
    let kl = b.last().0@;
    lemma_index_of_key(acc, kl);
    if j == b.len() - 1 {
        law_merge_unites_keys(a, d);
        lemma_merged_keys(d, k);
        assert(!merged_keys(d).contains(k)) by {
            if merged_keys(d).contains(k) {
                let i = choose|i: int| 0 <= i < d.len() && #[trigger] d[i].0@ == k;
                assert(b[i].0@ == k);
            }
        }
        lemma_keys_of(acc, k);
        assert(index_of_key(acc, k) is None) by {
            lemma_index_of_key(acc, k);
            if let Some(i) = index_of_key(acc, k) {
                assert(acc[i].0 == k);
            }
        }
        let m = merge_entries(a, b);
        assert(m == acc.push((k, tree(b.last().1))));
        assert forall|q: int| 0 <= q < acc.len() implies m[q].0 != k by {
            assert(acc[q].0 != k);
        }
        lemma_first_key(m, k, acc.len() as int);
    } else {
        assert forall|i: int| 0 <= i < d.len() && i != j implies #[trigger] d[i].0@ != d[j].0@ by {
            assert(b[i].0@ != b[j].0@);
        }
        law_merge_adds_new_keys_whole(a, d, j);
        let p = index_of_key(acc, k)->Some_0;
        lemma_index_of_key(acc, k);
        assert(kl != k) by {
            assert(b[b.len() - 1].0@ != b[j].0@);
        }
        let m = merge_entries(a, b);
        match index_of_key(acc, kl) {
            Some(i) => {
                assert(m == acc.update(i, (kl, merge_tree(acc[i].1, b.last().1))));
                assert(i != p);
                assert forall|q: int| 0 <= q < p implies m[q].0 != k by {
                    assert(acc[q].0 != k);
                }
                lemma_first_key(m, k, p);
            },
            None => {
                assert(m == acc.push((kl, tree(b.last().1))));
                assert forall|q: int| 0 <= q < p implies m[q].0 != k by {
                    assert(acc[q].0 != k);
                }
                lemma_first_key(m, k, p);
            },
        }
    }
}

/// What parsing the TOML document `text` gives, as the library holds it:
/// `None` when it is not a valid document.
pub uninterp spec fn parsed_toml(text: Seq<char>) -> Option<TomlValue>;

/// The library's copy of a parsed TOML value: tables entry by entry, in
/// the table's order, any other value as its TOML text.
#[verifier::external_body]
fn library_value(value: toml::Value) -> TomlValue {
    match value {
        toml::Value::Table(table) => TomlValue::Table(
            table.into_iter().map(|(k, v)| (k, library_value(v))).collect(),
        ),
        other => TomlValue::Leaf(other.to_string()),
    }
}

/// `toml::from_str`: parse the TOML document `text`. The contract names
/// the result; an error carries the parser's message.
#[verifier::external_body]
pub(crate) fn parse_toml(text: &str) -> (r: Result<TomlValue, String>)
    ensures
        r is Ok <==> parsed_toml(text@) is Some,
        r matches Ok(v) ==> parsed_toml(text@) == Some(v),
{
    toml::from_str::<toml::Value>(text).map(library_value).map_err(|err| err.to_string())
}

/// The API document: the TOML document `text` with each of `extensions`
/// merged into it in turn, or the parser's error when `text` does not parse.
pub fn load_api_document(text: &str, extensions: Vec<TomlValue>) -> (r: Result<TomlValue, String>)
    ensures
        parsed_toml(text@) is None ==> r is Err,
        r matches Ok(v) ==> (parsed_toml(text@) matches Some(t) && tree(v) == merge_all(
            tree(t),
            extensions@,
        )),
        parsed_toml(text@) is Some ==> r is Ok,
{
    match parse_toml(text) {
        Ok(toml) => Ok(merge_extensions(toml, extensions)),
        Err(e) => Err(e),
    }
}

} // verus!
