//! Path names as text, with `/` as the separator.
use vstd::prelude::*;
use crate::text::{split_on, lemma_split_len, lemma_split_append_free, lemma_split_append_sep};

verus! {

/// `s` without the separators at its end.
pub open spec fn trim_trailing_separators(s: Seq<char>) -> Seq<char>
    decreases s.len(),
{
    if s.len() > 0 && s.last() == '/' {
        trim_trailing_separators(s.drop_last())
    } else {
        s
    }
}

/// The last component of a path: what follows its last separator, once the
/// separators at its end are gone.
pub open spec fn file_name_spec(path: Seq<char>) -> Seq<char> {
    split_on(trim_trailing_separators(path), '/').last()
}

/// The position of the last `c` in `s`, or -1 where there is none.
pub open spec fn last_index_of(s: Seq<char>, c: char) -> int
    decreases s.len(),
{
    if s.len() == 0 {
        -1
    } else if s.last() == c {
        s.len() - 1
    } else {
        last_index_of(s.drop_last(), c)
    }
}

/// The file name of a path without its extension: the text before the last
/// dot of the file name, unless that dot opens the name or the name is `..`,
/// in which case the whole file name.
pub open spec fn file_stem_spec(path: Seq<char>) -> Seq<char> {
    let name = file_name_spec(path);
    let dot = last_index_of(name, '.');
    if dot <= 0 || name == seq!['.', '.'] {
        name
    } else {
        name.take(dot)
    }
}

/// The last piece of a split is the text after the last separator.
pub proof fn lemma_split_last_after(t: Seq<char>, start: int)
    requires
        0 <= start <= t.len(),
        start == 0 || t[start - 1] == '/',
        forall|k: int| start <= k < t.len() ==> t[k] != '/',
    ensures
        split_on(t, '/').last() == t.subrange(start, t.len() as int),
{
    let suffix = t.subrange(start, t.len() as int);
    assert(!suffix.contains('/')) by {
        if suffix.contains('/') {
            let k = choose|k: int| 0 <= k < suffix.len() && suffix[k] == '/';
            assert(t[start + k] == '/');
        }
    }
    let e = Seq::<char>::empty();
    if start == 0 {
        lemma_split_append_free(e, suffix, '/');
        assert(e + suffix =~= t);
        assert(e + suffix =~= suffix);
    } else {
        let head = t.take(start - 1);
        lemma_split_len(head, '/');
        lemma_split_append_sep(head, '/');
        lemma_split_append_free(head.push('/'), suffix, '/');
        assert(head.push('/') + suffix =~= t);
        assert(e + suffix =~= suffix);
    }
}

/// Where the text of `path` ends once the separators at its end are dropped.
fn trimmed_end(path: &str) -> (end: usize)
    ensures
        end <= path@.len(),
        path@.take(end as int) == trim_trailing_separators(path@),
{
    let n = path.unicode_len();
    let mut end: usize = n;
    assert(path@.take(n as int) =~= path@);
    while end > 0 && path.get_char(end - 1) == '/'
        invariant
            n == path@.len(),
            end <= n,
            trim_trailing_separators(path@.take(end as int)) == trim_trailing_separators(path@),
        decreases end,
    {
        assert(path@.take(end as int).drop_last() =~= path@.take(end - 1));
        end -= 1;
    }
    let ghost t = path@.take(end as int);
    assert(trim_trailing_separators(t) == t) by {
        if t.len() > 0 {
            assert(t.last() == path@[end - 1]);
        }
    }
    end
}

/// Where the last component of the first `end` characters of `path` starts.
fn component_start(path: &str, end: usize) -> (start: usize)
    requires
        end <= path@.len(),
    ensures
        start <= end,
        split_on(path@.take(end as int), '/').last() == path@.subrange(start as int, end as int),
{
    let ghost t = path@.take(end as int);
    let mut start: usize = end;
    while start > 0 && path.get_char(start - 1) != '/'
        invariant
            end <= path@.len(),
            t == path@.take(end as int),
            start <= end,
            forall|k: int| start <= k < end ==> t[k] != '/',
        decreases start,
    {
        start -= 1;
    }
    proof {
        lemma_split_last_after(t, start as int);
        assert(t.subrange(start as int, end as int) =~= path@.subrange(start as int, end as int));
    }
    start
}

/// One past the position of the last dot between `start` and `end`, or
/// `start` where there is none.
fn last_dot(path: &str, start: usize, end: usize) -> (dot: usize)
    requires
        start <= end <= path@.len(),
    ensures
        start <= dot <= end,
        dot > start ==> last_index_of(path@.subrange(start as int, end as int), '.') == dot - start - 1,
        dot == start ==> last_index_of(path@.subrange(start as int, end as int), '.') == -1,
{
    let ghost name = path@.subrange(start as int, end as int);
    let mut dot: usize = end;
    assert(name.take((dot - start) as int) =~= name);
    while dot > start && path.get_char(dot - 1) != '.'
        invariant
            end <= path@.len(),
            start <= dot <= end,
            name == path@.subrange(start as int, end as int),
            last_index_of(name.take(dot - start), '.') == last_index_of(name, '.'),
        decreases dot,
    {
        assert(name.take(dot - start).drop_last() =~= name.take(dot - start - 1));
        assert(name.take(dot - start).last() == path@[dot - 1]);
        dot -= 1;
    }
    proof {
        if dot > start {
            assert(name.take(dot - start).last() == path@[dot - 1]);
        } else {
            assert(name.take(0) =~= Seq::<char>::empty());
        }
    }
    dot
}

/// The file name of `path` without its extension, as `Path::file_stem` gives
/// it for a file name other than `..`; for a path with no file name it is empty.
pub fn file_stem(path: &str) -> (stem: String)
    ensures
        stem@ == file_stem_spec(path@),
{
    let end = trimmed_end(path);
    let start = component_start(path, end);
    let ghost name = path@.subrange(start as int, end as int);
    assert(name == file_name_spec(path@));
    let dot = last_dot(path, start, end);
    let is_dot_dot = end - start == 2 && path.get_char(start) == '.' && path.get_char(start + 1) == '.';
    proof {
        if is_dot_dot {
            assert(name =~= seq!['.', '.']);
        }
        if name == seq!['.', '.'] {
            assert(name[0] == path@[start as int]);
            assert(name[1] == path@[start + 1]);
        }
    }
    if dot - start <= 1 || is_dot_dot {
        let stem = path.substring_char(start, end).to_owned();
        stem
    } else {
        let stem = path.substring_char(start, dot - 1).to_owned();
        proof {
            assert(stem@ =~= name.take(dot - start - 1));
        }
        stem
    }
}

/// Text without `c` appended to `prefix` leaves the last `c` where it was.
pub proof fn lemma_last_index_after(prefix: Seq<char>, suffix: Seq<char>, c: char)
    requires
        !suffix.contains(c),
    ensures
        last_index_of(prefix + suffix, c) == last_index_of(prefix, c),
    decreases suffix.len(),
{
    if suffix.len() == 0 {
        assert(prefix + suffix =~= prefix);
    } else {
        let s0 = suffix.drop_last();
        assert(!s0.contains(c)) by {
            if s0.contains(c) {
                let k = choose|k: int| 0 <= k < s0.len() && s0[k] == c;
                assert(suffix[k] == c);
            }
        }
        lemma_last_index_after(prefix, s0, c);
        assert((prefix + suffix).drop_last() =~= prefix + s0);
        assert((prefix + suffix).last() == suffix[suffix.len() - 1]);
    }
}

/// The file name of a path made of a directory (empty, or ending with a
/// separator) and a file is that file.
pub proof fn lemma_file_name_of(dir: Seq<char>, file: Seq<char>)
    requires
        file.len() > 0,
        !file.contains('/'),
        dir.len() == 0 || dir.last() == '/',
    ensures
        file_name_spec(dir + file) == file,
{
    let p = dir + file;
    assert(p.last() == file[file.len() - 1]);
    assert(trim_trailing_separators(p) == p);
    assert forall|k: int| dir.len() <= k < p.len() implies p[k] != '/' by {
        assert(p[k] == file[k - dir.len()]);
    }
    if dir.len() > 0 {
        assert(p[dir.len() - 1] == dir.last());
    }
    lemma_split_last_after(p, dir.len() as int);
    assert(p.subrange(dir.len() as int, p.len() as int) =~= file);
}

/// A class file built into a directory has the class name as its stem, and
/// holds `.class` just before its end.
pub proof fn lemma_class_file_stem(dir: Seq<char>, class: Seq<char>)
    requires
        class.len() > 0,
        !class.contains('/'),
        dir.len() == 0 || dir.last() == '/',
    ensures
        file_stem_spec(dir + class + seq!['.', 'c', 'l', 'a', 's', 's']) == class,
        (dir + class + seq!['.', 'c', 'l', 'a', 's', 's']).subrange(
            (dir.len() + class.len()) as int,
            (dir.len() + class.len() + 6) as int,
        ) == seq!['.', 'c', 'l', 'a', 's', 's'],
{
    let c = seq!['.', 'c', 'l', 'a', 's', 's'];
    let built = dir + class + c;
    let i: int = (dir.len() + class.len()) as int;
    assert(built.subrange(i, i + 6) =~= c);
    let name = class + c;
    assert(!name.contains('/')) by {
        if name.contains('/') {
            let k = choose|k: int| 0 <= k < name.len() && name[k] == '/';
            if k < class.len() {
                assert(class[k] == '/');
            }
        }
    }
    assert(built =~= dir + name);
    lemma_file_name_of(dir, name);
    let tail = seq!['c', 'l', 'a', 's', 's'];
    assert(!tail.contains('.'));
    assert(name =~= class.push('.') + tail);
    lemma_last_index_after(class.push('.'), tail, '.');
    assert(class.push('.').last() == '.');
    assert(last_index_of(name, '.') == class.len());
    assert(name != seq!['.', '.']) by {
        assert(name.len() != 2);
    }
    assert(name.take(class.len() as int) =~= class);
}

} // verus!
