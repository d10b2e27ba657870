//! Paths as texts.

use crate::text::chars_of;
use crate::text::text_of;
use vstd::prelude::*;

verus! {

/// A path within another: the second alone where it starts at the root.
pub open spec fn joined(a: Seq<char>, b: Seq<char>) -> Seq<char> {
    if b.len() > 0 && b[0] == '/' {
        b
    } else if a.len() == 0 || a.last() == '/' {
        a + b
    } else {
        a + seq!['/'] + b
    }
}

/// A path within another.
pub fn join(a: &str, b: &str) -> (r: String)
    ensures
        r@ == joined(a@, b@),
{
    let x = chars_of(a);
    let y = chars_of(b);
    if y.len() > 0 && y[0] == '/' {
        return b.to_owned();
    }
    let mut r = a.to_owned();
    if x.len() > 0 && x[x.len() - 1] != '/' {
        r.push('/');
    }
    r.append(b);
    assert(r@ =~= joined(a@, b@));
    r
}

/// A path of four steps within a directory.
pub open spec fn joined4(
    root: Seq<char>,
    a: Seq<char>,
    b: Seq<char>,
    c: Seq<char>,
    d: Seq<char>,
) -> Seq<char> {
    joined(joined(joined(joined(root, a), b), c), d)
}

/// A path of four steps within a directory.
pub fn join4(root: &str, a: &str, b: &str, c: &str, d: &str) -> (r: String)
    ensures
        r@ == joined4(root@, a@, b@, c@, d@),
{
    let p = join(root, a);
    let q = join(p.as_str(), b);
    let s = join(q.as_str(), c);
    join(s.as_str(), d)
}

/// The position of the last `c` of a text, and -1 where there is none.
pub open spec fn last_at(s: Seq<char>, c: char) -> int
    decreases s.len(),
{
    if s.len() == 0 {
        -1
    } else if s.last() == c {
        s.len() - 1
    } else {
        last_at(s.drop_last(), c)
    }
}

/// A file name without its extension: what stands before the last dot, or the whole name where
/// the only dot stands first or there is none.
pub open spec fn stem(name: Seq<char>) -> Seq<char> {
    let dot = last_at(name, '.');
    if dot <= 0 {
        name
    } else {
        name.take(dot)
    }
}

/// The extension of a file name: what stands behind the last dot, where that is not its first
/// character.
pub open spec fn extension(name: Seq<char>) -> Option<Seq<char>> {
    let dot = last_at(name, '.');
    if dot <= 0 {
        None
    } else {
        Some(name.skip(dot + 1))
    }
}

/// The name of a file: what stands behind the last slash.
pub open spec fn file_name(path: Seq<char>) -> Seq<char> {
    path.skip(last_at(path, '/') + 1)
}

/// The position is the last one of the character.
pub proof fn last_at_is_last(s: Seq<char>, c: char)
    ensures
        -1 <= last_at(s, c) < s.len(),
        last_at(s, c) >= 0 ==> s[last_at(s, c)] == c,
        forall|i: int| last_at(s, c) < i < s.len() ==> s[i] != c,
    decreases s.len(),
{
    if s.len() > 0 && s.last() != c {
        last_at_is_last(s.drop_last(), c);
        assert forall|i: int| last_at(s, c) < i < s.len() implies s[i] != c by {
            if i < s.len() - 1 {
                assert(s.drop_last()[i] == s[i]);
            }
        }
    }
}

/// A name without slashes is the name of the file that it makes within a directory.
pub proof fn name_within_reads_back(dir: Seq<char>, name: Seq<char>)
    requires
        !name.contains('/'),
    ensures
        file_name(joined(dir, name)) == name,
{
    let p = joined(dir, name);
    assert(!(name.len() > 0 && name[0] == '/')) by {
        if name.len() > 0 {
            assert(name.contains(name[0]));
        }
    }
    let front = p.len() - name.len();
    assert forall|i: int| front <= i < p.len() implies #[trigger] p[i] != '/' by {
        assert(p[i] == name[i - front]);
        assert(name.contains(name[i - front]));
    }
    assert(front > 0 ==> p[front - 1] == '/');
    last_at_is_last(p, '/');
    assert(last_at(p, '/') == front - 1);
    assert(file_name(p) =~= name);
}

/// A name with a dot and an extension behind it has the name as its stem, and that extension.
pub proof fn extended_name_parts(name: Seq<char>, ext: Seq<char>)
    requires
        name.len() > 0,
        !ext.contains('.'),
    ensures
        stem(name + seq!['.'] + ext) == name,
        extension(name + seq!['.'] + ext) == Some(ext),
{
    let s = name + seq!['.'] + ext;
    assert forall|i: int| name.len() < i < s.len() implies #[trigger] s[i] != '.' by {
        assert(s[i] == ext[i - name.len() - 1]);
        assert(ext.contains(ext[i - name.len() - 1]));
    }
    last_at_is_last(s, '.');
    assert(s[name.len() as int] == '.');
    assert(last_at(s, '.') == name.len());
    assert(stem(s) =~= name);
    assert(s.skip(name.len() as int + 1) =~= ext);
}

fn find_last(v: &Vec<char>, c: char) -> (r: Option<usize>)
    ensures
        match r {
            Some(i) => i == last_at(v@, c) && i < v@.len(),
            None => last_at(v@, c) == -1,
        },
{
    let mut n: usize = v.len();
    assert(v@.take(n as int) =~= v@);
    while n > 0
        invariant
            n <= v@.len(),
            last_at(v@, c) == last_at(v@.take(n as int), c),
        decreases n,
    {
        assert(v@.take(n as int).drop_last() =~= v@.take(n - 1));
        assert(v@.take(n as int).last() == v@[n - 1]);
        if v[n - 1] == c {
            return Some(n - 1);
        }
        n = n - 1;
    }
    None
}

/// The name of the file of a path.
pub fn name_of(path: &str) -> (r: String)
    ensures
        r@ == file_name(path@),
{
    let v = chars_of(path);
    let n: usize = v.len();
    let from: usize = match find_last(&v, '/') {
        Some(i) => i + 1,
        None => 0,
    };
    let r = text_of(&v, from, n);
    assert(r@ =~= file_name(path@));
    r
}

/// The extension of a file name.
pub fn extension_of(name: &str) -> (r: Option<String>)
    ensures
        match r {
            Some(x) => extension(name@) == Some(x@),
            None => extension(name@) is None,
        },
{
    let v = chars_of(name);
    let n: usize = v.len();
    match find_last(&v, '.') {
        Some(i) => {
            if i == 0 {
                None
            } else {
                let x = text_of(&v, i + 1, n);
                assert(x@ =~= name@.skip(i + 1));
                Some(x)
            }
        },
        None => None,
    }
}

/// A file name without its extension.
pub fn stem_of(name: &str) -> (r: String)
    ensures
        r@ == stem(name@),
{
    let v = chars_of(name);
    let to: usize = match find_last(&v, '.') {
        Some(i) => if i == 0 {
            v.len()
        } else {
            i
        },
        None => v.len(),
    };
    let r = text_of(&v, 0, to);
    assert(r@ =~= stem(name@));
    r
}

/// A path that starts at the root stands alone; any other is put behind the directory, with one
/// slash between the two.
pub proof fn joining_puts_one_slash(dir: Seq<char>, name: Seq<char>)
    requires
        name.len() > 0,
    ensures
        name[0] == '/' ==> joined(dir, name) == name,
        name[0] != '/' && dir.len() > 0 && dir.last() != '/' ==> joined(dir, name) == dir.push('/')
            + name,
        name[0] != '/' ==> joined(dir.push('/'), name) == dir.push('/') + name,
        joined(seq![], name) == name,
{
    assert(dir + seq!['/'] + name =~= dir.push('/') + name);
    assert(Seq::<char>::empty() + name =~= name);
    assert(dir.push('/').last() == '/');
}

} // verus!
