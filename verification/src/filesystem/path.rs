//! Canonical paths.
//!
//! A path is a sequence of components separated by `/`. Its canonical form
//! keeps the components that name something, in their order, joined by
//! single separators: empty components and `.` are left out, so that a
//! leading `/` or `./`, a trailing `/` and doubled separators all vanish.
//! A path with a `..` component has no canonical form: nothing leads out of
//! the file system.

use vstd::prelude::*;
use vstd::string::StringExecFns;
use crate::filesystem::error::Error;

verus! {

/// The components of a path: what stands between its separators.
pub open spec fn split(s: Seq<char>) -> Seq<Seq<char>>
    decreases s.len(),
{
    if s.len() == 0 {
        seq![Seq::empty()]
    } else {
        let init = split(s.drop_last());
        if s.last() == '/' {
            init.push(Seq::empty())
        } else {
            init.update(init.len() - 1, init.last().push(s.last()))
        }
    }
}

/// The component `.`.
pub open spec fn is_dot(c: Seq<char>) -> bool {
    c.len() == 1 && c[0] == '.'
}

/// The component `..`.
pub open spec fn is_dotdot(c: Seq<char>) -> bool {
    c.len() == 2 && c[0] == '.' && c[1] == '.'
}

/// Whether a component names something: it is neither empty nor `.`.
pub open spec fn is_kept(c: Seq<char>) -> bool {
    c.len() > 0 && !is_dot(c)
}

/// The components that name something, in their order.
pub open spec fn kept(parts: Seq<Seq<char>>) -> Seq<Seq<char>>
    decreases parts.len(),
{
    if parts.len() == 0 {
        Seq::empty()
    } else if is_kept(parts.last()) {
        kept(parts.drop_last()).push(parts.last())
    } else {
        kept(parts.drop_last())
    }
}

/// Whether one of the components is `..`.
pub open spec fn has_traversal(parts: Seq<Seq<char>>) -> bool {
    exists|i: int| 0 <= i < parts.len() && is_dotdot(#[trigger] parts[i])
}

/// The components joined by single separators.
pub open spec fn join(parts: Seq<Seq<char>>) -> Seq<char>
    decreases parts.len(),
{
    if parts.len() == 0 {
        Seq::empty()
    } else if parts.len() == 1 {
        parts[0]
    } else {
        join(parts.drop_last()) + seq!['/'] + parts.last()
    }
}

/// The canonical form of a path, if it has one.
pub open spec fn canonical(s: Seq<char>) -> Option<Seq<char>> {
    let names = kept(split(s));
    if has_traversal(names) {
        None
    } else {
        Some(join(names))
    }
}

/// Length of a path without its trailing separators.
pub open spec fn trimmed_len(p: Seq<char>) -> nat
    decreases p.len(),
{
    if p.len() == 0 {
        0
    } else if p.last() == '/' {
        trimmed_len(p.drop_last())
    } else {
        p.len()
    }
}

/// A path without its trailing separators.
pub open spec fn trimmed(p: Seq<char>) -> Seq<char> {
    p.subrange(0, trimmed_len(p) as int)
}

/// Index at which the last component of a path starts.
pub open spec fn name_start(p: Seq<char>) -> nat
    decreases p.len(),
{
    if p.len() == 0 {
        0
    } else if p.last() == '/' {
        p.len()
    } else {
        name_start(p.drop_last())
    }
}

/// The last component of a path, trailing separators aside.
pub open spec fn name_of(p: Seq<char>) -> Seq<char> {
    let t = trimmed(p);
    t.subrange(name_start(t) as int, t.len() as int)
}

/// Whether `path` names an entry directly inside the directory `dir`:
/// `path`, trailing separators aside, is `dir`, a separator and one more
/// component. In the root directory, whose path is empty, it is that one
/// component alone.
pub open spec fn immediate_child(dir: Seq<char>, path: Seq<char>) -> bool {
    let t = trimmed(path);
    if dir.len() == 0 {
        t.len() > 0 && !t.contains('/')
    } else {
        &&& t.len() > dir.len() + 1
        &&& t.subrange(0, dir.len() as int) == dir
        &&& t[dir.len() as int] == '/'
        &&& !t.subrange(dir.len() as int + 1, t.len() as int).contains('/')
    }
}

/// Whether `a` comes before `b` in the order of paths: the order of their
/// first differing characters, a proper prefix before what it is a prefix
/// of. Seen from character `i` on, the characters before being equal.
pub open spec fn precedes_from(a: Seq<char>, b: Seq<char>, i: int) -> bool
    decreases b.len() - i,
{
    if i < 0 || i >= b.len() {
        false
    } else if i >= a.len() {
        true
    } else if a[i] != b[i] {
        (a[i] as u32) < (b[i] as u32)
    } else {
        precedes_from(a, b, i + 1)
    }
}

/// Whether `a` comes before `b` in the order of paths.
pub open spec fn precedes(a: Seq<char>, b: Seq<char>) -> bool {
    precedes_from(a, b, 0)
}

/// How two paths stand in the order of paths.
#[derive(Clone, Copy, Debug, PartialEq, Eq, Structural)]
pub enum Precedence {
    Before,
    Same,
    After,
}

/// A path in canonical form.
#[derive(Clone, Debug, PartialEq, Eq, PartialOrd, Ord, Hash)]
pub struct CanonPathString(String);

impl View for CanonPathString {
    type V = Seq<char>;

    closed spec fn view(&self) -> Seq<char> {
        self.0@
    }
}

impl CanonPathString {
    /// The path as text.
    pub fn as_str(&self) -> (text: &str)
        ensures
            text@ == self@,
    {
        self.0.as_str()
    }

    /// The canonical form of `value`. A path with a `..` component is
    /// refused.
    pub fn try_from(value: &str) -> (res: Result<CanonPathString, Error>)
        ensures
            match res {
                Ok(path) => canonical(value@) == Some(path@),
                Err(e) => e == Error::InvalidPathTraversal && canonical(value@) is None,
            },
    {
        match canonicalize(value) {
            Ok(text) => Ok(CanonPathString(text)),
            Err(e) => Err(e),
        }
    }
}

/// How `a` stands to `b` in the order of paths.
pub fn precedence(a: &str, b: &str) -> (order: Precedence)
    ensures
        match order {
            Precedence::Before => precedes(a@, b@),
            Precedence::Same => a@ == b@,
            Precedence::After => precedes(b@, a@),
        },
{
    let a_len = a.unicode_len();
    let b_len = b.unicode_len();
    let mut i: usize = 0;
    while i < a_len && i < b_len
        invariant
            a_len == a@.len(),
            b_len == b@.len(),
            i <= a_len,
            i <= b_len,
            forall|j: int| 0 <= j < i ==> a@[j] == b@[j],
            precedes(a@, b@) == precedes_from(a@, b@, i as int),
            precedes(b@, a@) == precedes_from(b@, a@, i as int),
        decreases a_len - i,
    {
        let x = a.get_char(i);
        let y = b.get_char(i);
        if x != y {
            if (x as u32) < (y as u32) {
                return Precedence::Before;
            } else {
                return Precedence::After;
            }
        }
        i = i + 1;
    }
    if i < b_len {
        Precedence::Before
    } else if i < a_len {
        Precedence::After
    } else {
        assert(a@ =~= b@);
        Precedence::Same
    }
}

/// The order of paths is transitive.
pub proof fn lemma_precedes_transitive(a: Seq<char>, b: Seq<char>, c: Seq<char>)
    requires
        precedes(a, b),
        precedes(b, c),
    ensures
        precedes(a, c),
{
    lemma_precedes_chain(a, b, c, 0);
}

proof fn lemma_precedes_chain(a: Seq<char>, b: Seq<char>, c: Seq<char>, i: int)
    requires
        0 <= i,
        precedes_from(a, b, i),
        precedes_from(b, c, i),
    ensures
        precedes_from(a, c, i),
    decreases c.len() - i,
{
    if i < a.len() && i < b.len() && i < c.len() && a[i] == b[i] && b[i] == c[i] {
        lemma_precedes_chain(a, b, c, i + 1);
    }
}

/// No path comes before itself, and of two paths at most one comes before
/// the other.
pub proof fn lemma_precedes_asymmetric(a: Seq<char>, b: Seq<char>)
    ensures
        !(precedes(a, b) && precedes(b, a)),
        !precedes(a, a),
{
    lemma_precedes_one_way(a, b, 0);
    lemma_precedes_one_way(a, a, 0);
}

proof fn lemma_precedes_one_way(a: Seq<char>, b: Seq<char>, i: int)
    requires
        0 <= i,
    ensures
        !(precedes_from(a, b, i) && precedes_from(b, a, i)),
    decreases a.len() - i,
{
    if i < a.len() && i < b.len() && a[i] == b[i] {
        lemma_precedes_one_way(a, b, i + 1);
    }
}

/// Different characters have different codes.
proof fn lemma_codes_differ(x: char, y: char)
    requires
        x != y,
    ensures
        x as u32 != y as u32,
{
}

/// Of two different paths one comes before the other.
pub proof fn lemma_precedes_total(a: Seq<char>, b: Seq<char>)
    ensures
        precedes(a, b) || a == b || precedes(b, a),
{
    lemma_precedes_decides(a, b, 0);
}

proof fn lemma_precedes_decides(a: Seq<char>, b: Seq<char>, i: int)
    requires
        0 <= i <= a.len(),
        i <= b.len(),
        forall|j: int| 0 <= j < i ==> a[j] == b[j],
    ensures
        precedes_from(a, b, i) || a == b || precedes_from(b, a, i),
    decreases a.len() - i,
{
    if i < a.len() && i < b.len() {
        if a[i] == b[i] {
            lemma_precedes_decides(a, b, i + 1);
        } else {
            lemma_codes_differ(a[i], b[i]);
        }
    } else if i == a.len() && i == b.len() {
        assert(a =~= b);
    }
}

/// Appends the component `input[start..end]` to the canonical form that is
/// being built, if it names something.
fn close_component(
    input: &str,
    start: usize,
    end: usize,
    out: &mut String,
    first: &mut bool,
    traversal: &mut bool,
)
    requires
        start <= end <= input@.len(),
        *old(first) ==> old(out)@.len() == 0,
    ensures
        ({
            let c = input@.subrange(start as int, end as int);
            if is_kept(c) {
                &&& final(out)@ == if *old(first) {
                    c
                } else {
                    old(out)@ + seq!['/'] + c
                }
                &&& !*final(first)
                &&& *final(traversal) == (*old(traversal) || is_dotdot(c))
            } else {
                &&& final(out)@ == old(out)@
                &&& *final(first) == *old(first)
                &&& *final(traversal) == *old(traversal)
            }
        }),
{
    let len = end - start;
    if len == 0 {
        return ;
    }
    let ghost c = input@.subrange(start as int, end as int);
    let c0 = input.get_char(start);
    assert(c0 == c[0]);
    if len == 1 && c0 == '.' {
        return ;
    }
    if len == 2 && c0 == '.' {
        let c1 = input.get_char(start + 1);
        assert(c1 == c[1]);
        if c1 == '.' {
            *traversal = true;
        }
    }
    if !*first {
        proof {
            reveal_strlit("/");
        }
        out.append("/");
        assert("/"@ =~= seq!['/']);
    }
    out.append(input.substring_char(start, end));
    if *first {
        assert(out@ =~= c);
    }
    *first = false;
}

/// The canonical form of `input`: its components that name something,
/// joined by single separators. A path with a `..` component is refused.
pub fn canonicalize(input: &str) -> (res: Result<String, Error>)
    ensures
        match res {
            Ok(text) => canonical(input@) == Some(text@),
            Err(e) => e == Error::InvalidPathTraversal && canonical(input@) is None,
        },
{
    let n = input.unicode_len();
    let mut out = String::new();
    let mut first = true;
    let mut traversal = false;
    let mut start: usize = 0;
    let mut k: usize = 0;
    assert(input@.subrange(0, 0) =~= Seq::<char>::empty());
    assert(split(Seq::<char>::empty()).drop_last() =~= Seq::<Seq<char>>::empty());
    while k < n
        invariant
            n == input@.len(),
            start <= k <= n,
            split(input@.subrange(0, k as int)).len() > 0,
            split(input@.subrange(0, k as int)).last() == input@.subrange(start as int, k as int),
            out@ == join(kept(split(input@.subrange(0, k as int)).drop_last())),
            first == (kept(split(input@.subrange(0, k as int)).drop_last()).len() == 0),
            traversal == has_traversal(kept(split(input@.subrange(0, k as int)).drop_last())),
        decreases n - k,
    {
        let ghost before = input@.subrange(0, k as int);
        let ghost after = input@.subrange(0, k as int + 1);
        let ghost parts = split(before);
        let ghost done = parts.drop_last();
        let ghost current = parts.last();
        let c = input.get_char(k);
        proof {
            assert(after.drop_last() =~= before);
            assert(after.last() == c);
        }
        if c == '/' {
            close_component(input, start, k, &mut out, &mut first, &mut traversal);
            proof {
                assert(split(after) == parts.push(Seq::<char>::empty()));
                assert(split(after).drop_last() =~= parts);
                lemma_kept_step(done, current);
                assert(parts =~= done.push(current));
                assert(input@.subrange(k as int + 1, k as int + 1) =~= Seq::<char>::empty());
            }
            start = k + 1;
        } else {
            proof {
                assert(split(after) == parts.update(parts.len() - 1, current.push(c)));
                assert(split(after).drop_last() =~= done);
                assert(current.push(c) =~= input@.subrange(start as int, k as int + 1));
            }
        }
        k = k + 1;
    }
    let ghost parts = split(input@.subrange(0, n as int));
    close_component(input, start, n, &mut out, &mut first, &mut traversal);
    proof {
        assert(input@.subrange(0, n as int) =~= input@);
        lemma_kept_step(parts.drop_last(), parts.last());
        assert(parts =~= parts.drop_last().push(parts.last()));
    }
    if traversal {
        Err(Error::InvalidPathTraversal)
    } else {
        Ok(out)
    }
}

/// What one more component adds to the names kept so far: to the list, to
/// its joined form and to the search for `..`.
proof fn lemma_kept_step(done: Seq<Seq<char>>, c: Seq<char>)
    ensures
        kept(done.push(c)) == if is_kept(c) {
            kept(done).push(c)
        } else {
            kept(done)
        },
        join(kept(done).push(c)) == if kept(done).len() == 0 {
            c
        } else {
            join(kept(done)) + seq!['/'] + c
        },
        has_traversal(kept(done).push(c)) == (has_traversal(kept(done)) || is_dotdot(c)),
{
    let names = kept(done);
    let grown = names.push(c);
    assert(done.push(c).drop_last() =~= done);
    assert(grown.drop_last() =~= names);
    if has_traversal(grown) {
        let i = choose|i: int| 0 <= i < grown.len() && is_dotdot(#[trigger] grown[i]);
        if i < names.len() {
            assert(is_dotdot(names[i]));
        }
    }
    if has_traversal(names) {
        let i = choose|i: int| 0 <= i < names.len() && is_dotdot(#[trigger] names[i]);
        assert(is_dotdot(grown[i]));
    }
    if is_dotdot(c) {
        assert(is_dotdot(grown[names.len() as int]));
    }
}

/// Whether `text[from..to]` holds a separator.
fn holds_separator(text: &str, from: usize, to: usize) -> (found: bool)
    requires
        from <= to <= text@.len(),
    ensures
        found == text@.subrange(from as int, to as int).contains('/'),
{
    let mut i = from;
    while i < to
        invariant
            from <= i <= to <= text@.len(),
            !text@.subrange(from as int, i as int).contains('/'),
        decreases to - i,
    {
        if text.get_char(i) == '/' {
            assert(text@.subrange(from as int, to as int)[i - from] == '/');
            return true;
        }
        proof {
            let wider = text@.subrange(from as int, i as int + 1);
            if wider.contains('/') {
                let j = choose|j: int| 0 <= j < wider.len() && wider[j] == '/';
                if j < i - from {
                    assert(text@.subrange(from as int, i as int)[j] == '/');
                }
            }
        }
        i = i + 1;
    }
    false
}

/// Length of `text` without its trailing separators.
fn trimmed_length(text: &str) -> (len: usize)
    ensures
        len == trimmed_len(text@),
        len <= text@.len(),
{
    let mut len = text.unicode_len();
    assert(text@.subrange(0, len as int) =~= text@);
    while len > 0 && text.get_char(len - 1) == '/'
        invariant
            len <= text@.len(),
            trimmed_len(text@) == trimmed_len(text@.subrange(0, len as int)),
        decreases len,
    {
        assert(text@.subrange(0, len as int).drop_last() =~= text@.subrange(0, len as int - 1));
        len = len - 1;
    }
    len
}

/// Whether `path` names an entry directly inside the directory `dir`.
pub fn is_immediate_child(dir: &str, path: &str) -> (child: bool)
    ensures
        child == immediate_child(dir@, path@),
{
    let len = trimmed_length(path);
    let dir_len = dir.unicode_len();
    let ghost t = trimmed(path@);
    if dir_len == 0 {
        let found = holds_separator(path, 0, len);
        return len > 0 && !found;
    }
    if len <= dir_len || len - dir_len <= 1 {
        return false;
    }
    let mut i: usize = 0;
    while i < dir_len
        invariant
            i <= dir_len < len <= path@.len(),
            dir_len == dir@.len(),
            len == trimmed_len(path@),
            t == trimmed(path@),
            t == path@.subrange(0, len as int),
            t.subrange(0, i as int) == dir@.subrange(0, i as int),
        decreases dir_len - i,
    {
        if path.get_char(i) != dir.get_char(i) {
            assert(t.subrange(0, dir_len as int)[i as int] != dir@[i as int]);
            return false;
        }
        assert(t.subrange(0, i as int + 1) =~= t.subrange(0, i as int).push(t[i as int]));
        assert(dir@.subrange(0, i as int + 1) =~= dir@.subrange(0, i as int).push(dir@[i as int]));
        i = i + 1;
    }
    assert(dir@.subrange(0, dir_len as int) =~= dir@);
    if path.get_char(dir_len) != '/' {
        return false;
    }
    let found = holds_separator(path, dir_len + 1, len);
    assert(t.subrange(dir_len as int + 1, len as int) =~= path@.subrange(
        dir_len as int + 1,
        len as int,
    ));
    !found
}

/// The last component of `path`, trailing separators aside.
pub fn last_component(path: &str) -> (name: &str)
    ensures
        name@ == name_of(path@),
{
    let len = trimmed_length(path);
    let ghost t = trimmed(path@);
    let mut start = len;
    assert(t.subrange(0, len as int) =~= t);
    while start > 0 && path.get_char(start - 1) != '/'
        invariant
            start <= len <= path@.len(),
            t == path@.subrange(0, len as int),
            name_start(t) == name_start(t.subrange(0, start as int)),
        decreases start,
    {
        assert(t.subrange(0, start as int).drop_last() =~= t.subrange(0, start as int - 1));
        start = start - 1;
    }
    assert(t.subrange(start as int, len as int) =~= path@.subrange(start as int, len as int));
    path.substring_char(start, len)
}

} // verus!
