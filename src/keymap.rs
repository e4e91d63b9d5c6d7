//! Conversion between `/`-delimited object keys and local filesystem paths.
use vstd::prelude::*;

verus! {

/// Relies on `String::push`: the character is appended at the end.
pub assume_specification[ String::push ](s: &mut String, ch: char)
    ensures
        final(s)@ == old(s)@.push(ch),
;

/// Every occurrence of `from` in `s` replaced by `to`, all other characters kept.
pub open spec fn swap_char(s: Seq<char>, from: char, to: char) -> Seq<char> {
    s.map_values(|c: char| if c == from { to } else { c })
}

/// The local path of object `key` under the directory `root`: the key's
/// segments joined with the platform separator `sep`, below `root`.
pub open spec fn key_path(root: Seq<char>, key: Seq<char>, sep: char) -> Seq<char> {
    root + seq![sep] + swap_char(key, '/', sep)
}

/// `path` lies strictly below `root`: it starts with `root` followed by `sep`.
pub open spec fn is_below(root: Seq<char>, path: Seq<char>, sep: char) -> bool {
    &&& path.len() > root.len()
    &&& path.subrange(0, root.len() as int) == root
    &&& path[root.len() as int] == sep
}

/// The object key of a path below `root`: the part after `root` and its
/// separator, with each separator turned into `/`.
pub open spec fn path_key(root: Seq<char>, path: Seq<char>, sep: char) -> Seq<char> {
    swap_char(path.subrange(root.len() as int + 1, path.len() as int), sep, '/')
}

/// The key of entry `name` inside the directory whose key prefix is `prefix`.
pub open spec fn child_key(prefix: Seq<char>, name: Seq<char>) -> Seq<char> {
    if prefix.len() == 0 {
        name
    } else {
        prefix + seq!['/'] + name
    }
}

/// Appends `s` to `out`, character by character.
fn append_str(out: &mut String, s: &str)
    ensures
        final(out)@ == old(out)@ + s@,
{
    let n = s.unicode_len();
    let ghost start = out@;
    let mut i: usize = 0;
    while i < n
        invariant
            n == s@.len(),
            i <= n,
            out@ == start + s@.subrange(0, i as int),
        decreases n - i,
    {
        let c = s.get_char(i);
        out.push(c);
        i = i + 1;
        assert(s@.subrange(0, i as int) == s@.subrange(0, i - 1).push(c));
    }
    assert(s@.subrange(0, n as int) == s@);
}

/// Appends `s` to `out` with every `from` replaced by `to`.
fn append_swapped(out: &mut String, s: &str, from: char, to: char)
    ensures
        final(out)@ == old(out)@ + swap_char(s@, from, to),
{
    let n = s.unicode_len();
    let ghost start = out@;
    let mut i: usize = 0;
    while i < n
        invariant
            n == s@.len(),
            i <= n,
            out@ == start + swap_char(s@.subrange(0, i as int), from, to),
        decreases n - i,
    {
        let c = s.get_char(i);
        if c == from {
            out.push(to);
        } else {
            out.push(c);
        }
        i = i + 1;
        assert(swap_char(s@.subrange(0, i as int), from, to) =~= swap_char(
            s@.subrange(0, i - 1),
            from,
            to,
        ).push(if c == from { to } else { c }));
    }
    assert(s@.subrange(0, n as int) == s@);
}

/// `root`, then `sep`, then `name`.
pub fn join_path(root: &str, name: &str, sep: char) -> (r: String)
    ensures
        r@ == root@ + seq![sep] + name@,
{
    let mut r = String::new();
    append_str(&mut r, root);
    r.push(sep);
    append_str(&mut r, name);
    r
}

/// The local path of object `key` stored under the directory `root`.
pub fn key_to_path(root: &str, key: &str, sep: char) -> (r: String)
    ensures
        r@ == key_path(root@, key@, sep),
{
    let mut r = String::new();
    append_str(&mut r, root);
    r.push(sep);
    append_swapped(&mut r, key, '/', sep);
    r
}

/// The object key of `path` relative to the directory `root`, or `None`
/// when `path` does not lie below `root`.
pub fn path_to_key(root: &str, path: &str, sep: char) -> (r: Option<String>)
    ensures
        r.is_some() <==> is_below(root@, path@, sep),
        r matches Some(k) ==> k@ == path_key(root@, path@, sep),
{
    let m = root.unicode_len();
    let n = path.unicode_len();
    if n <= m {
        return None;
    }
    let mut i: usize = 0;
    while i < m
        invariant
            m == root@.len(),
            n == path@.len(),
            m < n,
            i <= m,
            path@.subrange(0, i as int) == root@.subrange(0, i as int),
        decreases m - i,
    {
        if path.get_char(i) != root.get_char(i) {
            assert(path@.subrange(0, m as int)[i as int] != root@[i as int]);
            return None;
        }
        i = i + 1;
        assert(path@.subrange(0, i as int) =~= root@.subrange(0, i as int));
    }
    assert(root@.subrange(0, m as int) == root@);
    if path.get_char(m) != sep {
        return None;
    }
    let rest = path.substring_char(m + 1, n);
    let mut k = String::new();
    append_swapped(&mut k, rest, sep, '/');
    assert(k@ =~= path_key(root@, path@, sep));
    Some(k)
}

/// The key of entry `name` in a directory whose key prefix is `prefix`:
/// `name` itself at the top level, `prefix/name` below it.
pub fn child_object_key(prefix: &str, name: &str) -> (r: String)
    ensures
        r@ == child_key(prefix@, name@),
{
    let mut r = String::new();
    if prefix.unicode_len() == 0 {
        append_str(&mut r, name);
        assert(r@ =~= name@);
    } else {
        append_str(&mut r, prefix);
        r.push('/');
        append_str(&mut r, name);
    }
    r
}

/// A key that holds no platform separator (or whose separator is `/` itself)
/// comes back unchanged from its local path: the path lies below the root,
/// and reading the key off that path gives the key again.
pub proof fn lemma_key_path_round_trip(root: Seq<char>, key: Seq<char>, sep: char)
    requires
        sep == '/' || !key.contains(sep),
    ensures
        is_below(root, key_path(root, key, sep), sep),
        path_key(root, key_path(root, key, sep), sep) == key,
{
    let p = key_path(root, key, sep);
    assert(p.subrange(0, root.len() as int) =~= root);
    assert(p[root.len() as int] == sep);
    let mid = p.subrange(root.len() as int + 1, p.len() as int);
    assert(mid =~= swap_char(key, '/', sep));
    assert forall|i: int| 0 <= i < key.len() implies #[trigger] swap_char(mid, sep, '/')[i]
        == key[i] by {
        if sep != '/' {
            assert(key[i] != sep);
        }
    }
    assert(swap_char(mid, sep, '/') =~= key);
}

/// The local path of the directory whose key prefix is `prefix`, below the
/// bucket directory `dir`.
pub open spec fn prefix_dir(dir: Seq<char>, prefix: Seq<char>, sep: char) -> Seq<char> {
    if prefix.len() == 0 {
        dir
    } else {
        key_path(dir, prefix, sep)
    }
}

/// An entry `name` found in the directory of key prefix `prefix` lies at the
/// local path of the key that the walk gives it, and reading the key off that
/// path gives the same key: restoring a tree yields the keys that it was
/// written from.
pub proof fn lemma_child_key_reads_path(dir: Seq<char>, prefix: Seq<char>, name: Seq<char>, sep: char)
    requires
        !name.contains('/'),
        !name.contains(sep),
        sep == '/' || !prefix.contains(sep),
    ensures
        prefix_dir(dir, prefix, sep) + seq![sep] + name == key_path(dir, child_key(prefix, name), sep),
        is_below(dir, prefix_dir(dir, prefix, sep) + seq![sep] + name, sep),
        path_key(dir, prefix_dir(dir, prefix, sep) + seq![sep] + name, sep) == child_key(prefix, name),
        sep == '/' || !child_key(prefix, name).contains(sep),
{
    let k = child_key(prefix, name);
    assert(swap_char(name, '/', sep) =~= name);
    if prefix.len() == 0 {
        assert(prefix_dir(dir, prefix, sep) + seq![sep] + name =~= key_path(dir, k, sep));
    } else {
        assert(swap_char(k, '/', sep) =~= swap_char(prefix, '/', sep) + seq![sep] + swap_char(name, '/', sep));
        assert(prefix_dir(dir, prefix, sep) + seq![sep] + name =~= key_path(dir, k, sep));
    }
    assert(sep == '/' || !k.contains(sep)) by {
        if sep != '/' && k.contains(sep) {
            let i = choose|i: int| 0 <= i < k.len() && k[i] == sep;
            if prefix.len() != 0 && i < prefix.len() {
                assert(prefix[i] == sep);
            } else if prefix.len() != 0 && i > prefix.len() {
                assert(name[i - prefix.len() - 1] == sep);
            } else if prefix.len() == 0 {
                assert(name[i] == sep);
            }
        }
    }
    lemma_key_path_round_trip(dir, k, sep);
}

} // verus!
