//! Credentials and session cookies kept in the editor's secret storage.
//!
//! Every secret is stored under an entry name `@{kind} {site}`. The storage
//! cannot be enumerated, so the names of all entries ever written are also
//! kept in one more secret, the index, stored under [`INDEX_ENTRY`] as the
//! names each preceded by `#`. This module decides what is written where;
//! the reads and writes themselves are done by the caller.
use vstd::prelude::*;
use crate::text::{
    join, join_with, lemma_split_join, lemma_split_len, lemma_split_pieces_free,
    lemma_split_append_free, lemma_split_append_sep, split, split_on, string_views,
    strictly_sorted, insert_sorted,
};

verus! {

/// The kind of entry that holds a user name and password.
pub const KIND_CREDENTIALS: &'static str = "credentials";

/// The kind of entry that holds a session cookie.
pub const KIND_SESSION: &'static str = "session";

/// The name of the secret that holds the index of entry names.
pub const INDEX_ENTRY: &'static str = "all";

/// A user name and password for a site.
pub struct Credentials {
    pub username: String,
    pub password: String,
}

/// One secret of the storage: its kind and the site it belongs to.
pub struct Keyring {
    kind: &'static str,
    site: String,
}

impl View for Keyring {
    type V = (Seq<char>, Seq<char>);

    closed spec fn view(&self) -> (Seq<char>, Seq<char>) {
        (self.kind@, self.site@)
    }
}

/// The name under which the secret of `kind` for `site` is stored.
pub open spec fn entry_name(kind: Seq<char>, site: Seq<char>) -> Seq<char> {
    seq!['@'] + kind + seq![' '] + site
}

/// The text of the index, where an absent index counts as empty.
pub open spec fn index_text(stored: Option<Seq<char>>) -> Seq<char> {
    match stored {
        Some(s) => s,
        None => Seq::empty(),
    }
}

/// The view of an optional string slice.
pub open spec fn opt_view(s: Option<&str>) -> Option<Seq<char>> {
    match s {
        Some(t) => Some(t@),
        None => None,
    }
}

/// `name` is one of the entries that the index `index` lists.
pub open spec fn listed(index: Seq<char>, name: Seq<char>) -> bool {
    name.len() > 0 && split_on(index, '#').contains(name)
}

/// The index after one more entry name was recorded in it.
pub open spec fn index_with_spec(index: Seq<char>, name: Seq<char>) -> Seq<char> {
    index + seq!['#'] + name
}

/// The index after every record of the entry name was taken out of it.
pub open spec fn index_without_spec(index: Seq<char>, name: Seq<char>) -> Seq<char> {
    join_with(split_on(index, '#').filter(other_than(name)), seq!['#'])
}

/// Holds of the pieces that differ from `name`.
pub open spec fn other_than(name: Seq<char>) -> spec_fn(Seq<char>) -> bool {
    |p: Seq<char>| p != name
}

fn index_or_empty(stored: Option<&str>) -> (s: &str)
    ensures
        s@ == index_text(opt_view(stored)),
{
    match stored {
        Some(s) => s,
        None => {
            let e = "";
            proof {
                reveal_strlit("");
            }
            e
        },
    }
}

impl Keyring {
    pub fn new(kind: &'static str, site: &str) -> (k: Keyring)
        ensures
            k@ == (kind@, site@),
    {
        Keyring { kind, site: site.to_owned() }
    }

    /// The name under which this secret is stored: `@{kind} {site}`.
    pub fn entry(&self) -> (name: String)
        ensures
            name@ == entry_name(self@.0, self@.1),
            name@ == seq!['@'] + self@.0 + seq![' '] + self@.1,
    {
        let mut name = String::new();
        name.append("@");
        name.append(self.kind);
        name.append(" ");
        name.append(self.site.as_str());
        proof {
            reveal_strlit("@");
            reveal_strlit(" ");
            assert(name@ =~= entry_name(self@.0, self@.1));
        }
        name
    }

    /// The index to store after the entry `name` was written, given the index
    /// read before (`None` where there was none).
    pub fn index_with(stored: Option<&str>, name: &str) -> (index: String)
        ensures
            index@ == index_with_spec(index_text(opt_view(stored)), name@),
            stored is Some ==> index@ == stored->0@ + seq!['#'] + name@,
            stored is None ==> index@ == seq!['#'] + name@,
    {
        let all = index_or_empty(stored);
        let mut index = all.to_owned();
        index.append("#");
        index.append(name);
        proof {
            reveal_strlit("#");
            assert(index@ =~= index_with_spec(index_text(opt_view(stored)), name@));
        }
        index
    }

    /// The entry names that the stored index lists: each once, none empty,
    /// in ascending order.
    pub fn index_entries(stored: Option<&str>) -> (names: Vec<String>)
        ensures
            strictly_sorted(string_views(names@)),
            forall|y: Seq<char>|
                string_views(names@).contains(y) <==> listed(index_text(opt_view(stored)), y),
            stored is Some ==> forall|y: Seq<char>|
                string_views(names@).contains(y) <==> listed(stored->0@, y),
            stored is None ==> names@.len() == 0,
    {
        let all = index_or_empty(stored);
        let parts = split(all, '#');
        let ghost pv = string_views(parts@);
        let mut names: Vec<String> = Vec::new();
        let mut i: usize = 0;
        while i < parts.len()
            invariant
                i <= parts.len(),
                pv == string_views(parts@),
                pv == split_on(all@, '#'),
                strictly_sorted(string_views(names@)),
                forall|y: Seq<char>|
                    string_views(names@).contains(y) <==> (y.len() > 0 && pv.take(i as int).contains(y)),
            decreases parts.len() - i,
        {
            let ghost before = string_views(names@);
            if parts[i].unicode_len() != 0 {
                insert_sorted(&mut names, parts[i].clone());
            }
            proof {
                assert(pv[i as int] == parts@[i as int]@);
                let t0 = pv.take(i as int);
                let t1 = pv.take(i + 1);
                assert(t1 =~= t0.push(pv[i as int]));
                assert forall|y: Seq<char>|
                    string_views(names@).contains(y) <==> (y.len() > 0 && t1.contains(y)) by {
                    if t1.contains(y) {
                        let k = choose|k: int| 0 <= k < t1.len() && t1[k] == y;
                        if k < i {
                            assert(t0[k] == y);
                        }
                    }
                    if t0.contains(y) {
                        let k = choose|k: int| 0 <= k < t0.len() && t0[k] == y;
                        assert(t1[k] == y);
                    }
                    assert(t1[i as int] == pv[i as int]);
                }
            }
            i += 1;
        }
        proof {
            assert(pv.take(parts.len() as int) =~= pv);
            if stored is None && names@.len() > 0 {
                assert(string_views(names@)[0] == names@[0]@);
                assert(string_views(names@).contains(names@[0]@));
                assert(split_on(Seq::<char>::empty(), '#') == seq![Seq::<char>::empty()]);
            }
        }
        names
    }

    /// The index to store after the entry `name` was deleted, given the index
    /// read before (`None` where there was none): every record of `name` goes.
    pub fn index_without(stored: Option<&str>, name: &str) -> (index: String)
        ensures
            index@ == index_without_spec(index_text(opt_view(stored)), name@),
            stored is Some ==> index@ == index_without_spec(stored->0@, name@),
            stored is None ==> index@.len() == 0,
    {
        let all = index_or_empty(stored);
        let parts = split(all, '#');
        let ghost pv = string_views(parts@);
        let owned_name = name.to_owned();
        proof {
            reveal(Seq::filter);
            assert(pv.take(0).filter(other_than(name@)) =~= Seq::<Seq<char>>::empty());
        }
        let mut kept: Vec<String> = Vec::new();
        assert(string_views(kept@) =~= Seq::<Seq<char>>::empty());
        let mut i: usize = 0;
        while i < parts.len()
            invariant
                i <= parts.len(),
                pv == string_views(parts@),
                pv == split_on(all@, '#'),
                owned_name@ == name@,
                string_views(kept@) == pv.take(i as int).filter(other_than(name@)),
            decreases parts.len() - i,
        {
            proof {
                assert(pv.take(i + 1).drop_last() =~= pv.take(i as int));
                assert(pv.take(i + 1).last() == parts@[i as int]@);
                reveal(Seq::filter);
                assert(pv.take(i + 1).filter(other_than(name@)) == (if other_than(name@)(pv[i as int]) {
                    pv.take(i as int).filter(other_than(name@)).push(pv[i as int])
                } else {
                    pv.take(i as int).filter(other_than(name@))
                }));
            }
            if parts[i] != owned_name {
                let ghost k0 = kept@;
                kept.push(parts[i].clone());
                proof {
                    assert(string_views(kept@) =~= string_views(k0).push(parts@[i as int]@));
                }
            }
            i += 1;
        }
        proof {
            assert(pv.take(parts.len() as int) =~= pv);
        }
        let index = join(&kept, "#");
        proof {
            reveal_strlit("#");
            assert("#"@ =~= seq!['#']);
        }
        index
    }

    /// The prompt that asks for the user name at `site`.
    pub fn username_prompt(site: &str) -> (message: String)
        ensures
            message@ == "Username at "@ + site@,
    {
        let mut message = "Username at ".to_owned();
        message.append(site);
        message
    }

    /// The prompt that asks for the password of `username` at `site`.
    pub fn password_prompt(username: &str, site: &str) -> (message: String)
        ensures
            message@ == "Password for "@ + username@ + " at "@ + site@,
    {
        let mut message = "Password for ".to_owned();
        message.append(username);
        message.append(" at ");
        message.append(site);
        message
    }
}


/// Recording an entry name in the index makes the index list that name, and
/// changes nothing else it lists. Entry names are not empty and hold no `#`.
pub proof fn lemma_index_with_lists(index: Seq<char>, name: Seq<char>)
    requires
        name.len() > 0,
        !name.contains('#'),
    ensures
        forall|y: Seq<char>|
            listed(index_with_spec(index, name), y) <==> (listed(index, y) || y == name),
{
    let sp = split_on(index, '#');
    lemma_split_len(index, '#');
    lemma_split_append_sep(index, '#');
    lemma_split_append_free(index.push('#'), name, '#');
    assert(index + seq!['#'] =~= index.push('#'));
    let e = Seq::<char>::empty();
    assert(e + name =~= name);
    let sn = split_on(index_with_spec(index, name), '#');
    assert(sn =~= sp.push(name));
    assert forall|y: Seq<char>| listed(index_with_spec(index, name), y) <==> (listed(index, y) || y == name) by {
        if sn.contains(y) {
            let k = choose|k: int| 0 <= k < sn.len() && sn[k] == y;
            if k < sp.len() {
                assert(sp[k] == y);
            }
        }
        if sp.contains(y) {
            let k = choose|k: int| 0 <= k < sp.len() && sp[k] == y;
            assert(sn[k] == y);
        }
        if y == name {
            assert(sn[sp.len() as int] == y);
        }
    }
}

/// Taking an entry name out of the index makes the index stop listing that
/// name, and changes nothing else it lists.
pub proof fn lemma_index_without_lists(index: Seq<char>, name: Seq<char>)
    ensures
        forall|y: Seq<char>|
            listed(index_without_spec(index, name), y) <==> (listed(index, y) && y != name),
{
    broadcast use vstd::seq_lib::group_filter_ensures;

    let sp = split_on(index, '#');
    let f = sp.filter(other_than(name));
    lemma_split_pieces_free(index, '#');
    assert forall|x: Seq<char>| f.contains(x) <==> (sp.contains(x) && x != name) by {
        if f.contains(x) {
            sp.lemma_filter_contains_rev(other_than(name), x);
            let k = choose|k: int| 0 <= k < f.len() && f[k] == x;
            assert(other_than(name)(f[k]));
        }
        if sp.contains(x) && x != name {
            let k = choose|k: int| 0 <= k < sp.len() && sp[k] == x;
            assert(other_than(name)(sp[k]));
        }
    }
    assert forall|i: int| 0 <= i < f.len() implies !(#[trigger] f[i]).contains('#') by {
        assert(f.contains(f[i]));
        let k = choose|k: int| 0 <= k < sp.len() && sp[k] == f[i];
    }
    if f.len() == 0 {
        assert(index_without_spec(index, name) =~= Seq::<char>::empty());
        assert forall|y: Seq<char>| !listed(index_without_spec(index, name), y) by {
            let s0 = split_on(Seq::<char>::empty(), '#');
            if s0.contains(y) {
                let k = choose|k: int| 0 <= k < s0.len() && s0[k] == y;
            }
        }
        assert forall|y: Seq<char>| !(listed(index, y) && y != name) by {
            if sp.contains(y) && y != name {
                assert(f.contains(y));
            }
        }
    } else {
        lemma_split_join(f, '#');
    }
}

/// An entry name is never empty, and holds `#` only where its kind or its
/// site does.
pub proof fn lemma_entry_name_fits_index(kind: Seq<char>, site: Seq<char>)
    requires
        !kind.contains('#'),
        !site.contains('#'),
    ensures
        entry_name(kind, site).len() > 0,
        !entry_name(kind, site).contains('#'),
{
    let e = entry_name(kind, site);
    assert forall|i: int| 0 <= i < e.len() implies e[i] != '#' by {
        if 1 <= i < 1 + kind.len() {
            assert(e[i] == kind[i - 1]);
        } else if i > 1 + kind.len() {
            assert(e[i] == site[i - 2 - kind.len()]);
        }
    }
}

/// Saving a secret of some kind for a site records its entry, which the index
/// then lists beside what it listed before; deleting that entry afterwards
/// leaves the index listing what it listed before, but that entry.
pub proof fn lemma_saved_then_deleted(kind: Seq<char>, site: Seq<char>, index: Seq<char>)
    requires
        !kind.contains('#'),
        !site.contains('#'),
    ensures
        forall|y: Seq<char>|
            listed(index_with_spec(index, entry_name(kind, site)), y) <==> (listed(index, y) || y
                == entry_name(kind, site)),
        forall|y: Seq<char>|
            listed(
                index_without_spec(index_with_spec(index, entry_name(kind, site)), entry_name(kind, site)),
                y,
            ) <==> (listed(index, y) && y != entry_name(kind, site)),
{
    let name = entry_name(kind, site);
    lemma_entry_name_fits_index(kind, site);
    lemma_index_with_lists(index, name);
    lemma_index_without_lists(index_with_spec(index, name), name);
}

/// The index is read whole: a stored index is taken as it is, whatever its
/// length, and a missing one as empty.
pub proof fn lemma_index_read_whole(s: Seq<char>)
    ensures
        index_text(Some(s)) == s,
        index_text(None) == Seq::<char>::empty(),
        forall|y: Seq<char>| listed(index_text(Some(s)), y) <==> listed(s, y),
{
}

/// The records of an index, however long, are all listed: a name written
/// between two `#`-separated stretches of any length is listed.
pub proof fn lemma_every_record_listed(before: Seq<char>, name: Seq<char>, after: Seq<char>)
    requires
        name.len() > 0,
        !name.contains('#'),
    ensures
        listed(index_text(Some(before + seq!['#'] + name + seq!['#'] + after)), name),
{
    let s = before + seq!['#'] + name + seq!['#'] + after;
    let p = before + seq!['#'] + name;
    lemma_split_len(before, '#');
    lemma_split_append_sep(before, '#');
    lemma_split_append_free(before.push('#'), name, '#');
    assert(before + seq!['#'] =~= before.push('#'));
    assert(Seq::<char>::empty() + name =~= name);
    let sb = split_on(before, '#');
    assert(split_on(p, '#') =~= sb.push(name));
    let k = sb.len() as int;
    // what follows `name` only adds pieces after it
    lemma_split_len(p, '#');
    lemma_split_append_sep(p, '#');
    assert(p + seq!['#'] =~= p.push('#'));
    lemma_split_prefix_kept(p.push('#'), after);
    assert(split_on(p.push('#'), '#')[k] == name);
    assert(s =~= p.push('#') + after);
    assert(split_on(s, '#')[k] == name);
}

/// Appending text keeps every piece of a split but the last one.
proof fn lemma_split_prefix_kept(a: Seq<char>, b: Seq<char>)
    ensures
        split_on(a + b, '#').len() >= split_on(a, '#').len(),
        forall|k: int| 0 <= k < split_on(a, '#').len() - 1 ==> split_on(a + b, '#')[k] == split_on(a, '#')[k],
    decreases b.len(),
{
    lemma_split_len(a, '#');
    if b.len() == 0 {
        assert(a + b =~= a);
    } else {
        let b0 = b.drop_last();
        lemma_split_prefix_kept(a, b0);
        assert((a + b).drop_last() =~= a + b0);
        lemma_split_len(a + b0, '#');
    }
}

/// An entry name is `@`, the kind, a space and the whole site: it is two
/// longer than kind and site together, it ends with the site, and different
/// sites of one kind get different names.
pub proof fn lemma_entry_name_shape(kind: Seq<char>, site: Seq<char>, other_site: Seq<char>)
    ensures
        entry_name(kind, site).len() == kind.len() + site.len() + 2,
        entry_name(kind, site)[0] == '@',
        entry_name(kind, site).subrange(1, kind.len() + 1 as int) == kind,
        entry_name(kind, site)[kind.len() + 1 as int] == ' ',
        entry_name(kind, site).subrange(kind.len() + 2 as int, entry_name(kind, site).len() as int) == site,
        site != other_site ==> entry_name(kind, site) != entry_name(kind, other_site),
{
    let e = entry_name(kind, site);
    let f = entry_name(kind, other_site);
    assert(e.subrange(1, kind.len() + 1 as int) =~= kind);
    assert(e.subrange(kind.len() + 2 as int, e.len() as int) =~= site);
    assert(f.subrange(kind.len() + 2 as int, f.len() as int) =~= other_site);
}

} // verus!
