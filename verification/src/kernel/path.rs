//! Guest paths as text: mount prefixes, and `.` and `..` collapsed without the disk.

use crate::text::to_chars;
use vstd::prelude::*;
use vstd::string::StrSliceExecFns;
use vstd::string::StringExecFns;

verus! {

broadcast use vstd::string::group_string_axioms;

/// The text, split at every slash.
pub open spec fn split(s: Seq<char>) -> Seq<Seq<char>>
    decreases s.len(),
{
    if s.len() == 0 {
        seq![s]
    } else {
        let front = split(s.drop_last());
        if s.last() == '/' {
            front.push(Seq::empty())
        } else {
            front.drop_last().push(front.last().push(s.last()))
        }
    }
}

/// The components, joined by slashes.
pub open spec fn join(parts: Seq<Seq<char>>) -> Seq<char>
    decreases parts.len(),
{
    if parts.len() == 0 {
        Seq::empty()
    } else if parts.len() == 1 {
        parts[0]
    } else {
        join(parts.drop_last()).push('/') + parts.last()
    }
}

/// A component that names the directory it stands in.
pub open spec fn is_here(c: Seq<char>) -> bool {
    c.len() == 0 || c == seq!['.']
}

/// A component that names the parent directory.
pub open spec fn is_parent(c: Seq<char>) -> bool {
    c == seq!['.', '.']
}

/// The components that survive when `.` and `..` are collapsed, or `None` where a `..`
/// climbs above the start.
pub open spec fn collapse(parts: Seq<Seq<char>>) -> Option<Seq<Seq<char>>>
    decreases parts.len(),
{
    if parts.len() == 0 {
        Some(Seq::empty())
    } else {
        match collapse(parts.drop_last()) {
            None => None,
            Some(out) => {
                let c = parts.last();
                if is_here(c) {
                    Some(out)
                } else if is_parent(c) {
                    if out.len() == 0 {
                        None
                    } else {
                        Some(out.drop_last())
                    }
                } else {
                    Some(out.push(c))
                }
            },
        }
    }
}

/// The text of each component.
pub open spec fn texts(v: Seq<&str>) -> Seq<Seq<char>> {
    Seq::new(v.len(), |i: int| v[i]@)
}

/// The text without the slashes it begins with.
pub open spec fn trim_slashes(s: Seq<char>) -> Seq<char>
    decreases s.len(),
{
    if s.len() > 0 && s[0] == '/' {
        trim_slashes(s.drop_first())
    } else {
        s
    }
}

/// The text without the slashes it ends with.
pub open spec fn trim_end_slashes(s: Seq<char>) -> Seq<char>
    decreases s.len(),
{
    if s.len() > 0 && s.last() == '/' {
        trim_end_slashes(s.drop_last())
    } else {
        s
    }
}

/// The text without the `./` it begins with, however often.
pub open spec fn trim_dot_slashes(s: Seq<char>) -> Seq<char>
    decreases s.len(),
{
    if s.len() >= 2 && s[0] == '.' && s[1] == '/' {
        trim_dot_slashes(s.skip(2))
    } else {
        s
    }
}

/// The path lies at or below the prefix: it begins with the prefix, and the prefix ends
/// where a component of the path ends.
pub open spec fn prefix_matches(path: Seq<char>, prefix: Seq<char>) -> bool {
    &&& prefix.len() <= path.len()
    &&& path.take(prefix.len() as int) == prefix
    &&& path.len() == prefix.len() || path[prefix.len() as int] == '/' || (prefix.len() > 0
        && prefix.last() == '/')
}

/// The part of a path below a prefix.
pub open spec fn below(path: Seq<char>, prefix: Seq<char>) -> Seq<char> {
    trim_slashes(path.skip(prefix.len() as int))
}

/// Where a relative path lies: under the working directory of the guest.
pub open spec fn anchored(path: Seq<char>) -> Seq<char> {
    "/app0/"@ + trim_slashes(trim_dot_slashes(path))
}

/// Whether a guest path lies at or below a mount's prefix.
pub fn mount_prefix_matches(guest_path: &str, prefix: &str) -> (b: bool)
    ensures
        b == prefix_matches(guest_path@, prefix@),
{
    let path = to_chars(guest_path);
    let pre = to_chars(prefix);
    if pre.len() > path.len() {
        return false;
    }
    let mut i: usize = 0;
    while i < pre.len()
        invariant
            pre@.len() <= path@.len(),
            path@ == guest_path@,
            pre@ == prefix@,
            i <= pre@.len(),
            forall|j: int| 0 <= j < i ==> path@[j] == pre@[j],
        decreases pre@.len() - i,
    {
        if path[i] != pre[i] {
            assert(path@.take(pre@.len() as int)[i as int] != pre@[i as int]);
            return false;
        }
        i = i + 1;
    }
    assert(path@.take(pre@.len() as int) =~= pre@);
    path.len() == pre.len() || path[pre.len()] == '/' || (pre.len() > 0 && pre[pre.len() - 1]
        == '/')
}

/// How many slashes a text begins with from `from` on.
fn skip_slashes(chars: &Vec<char>, from: usize) -> (to: usize)
    requires
        from <= chars@.len(),
    ensures
        from <= to <= chars@.len(),
        chars@.skip(to as int) == trim_slashes(chars@.skip(from as int)),
{
    let mut i: usize = from;
    while i < chars.len() && chars[i] == '/'
        invariant
            from <= i <= chars@.len(),
            trim_slashes(chars@.skip(i as int)) == trim_slashes(chars@.skip(from as int)),
        decreases chars@.len() - i,
    {
        assert(chars@.skip(i as int)[0] == '/');
        assert(chars@.skip(i as int).drop_first() =~= chars@.skip(i + 1));
        i = i + 1;
    }
    assert(i < chars@.len() ==> chars@.skip(i as int)[0] == chars@[i as int]);
    i
}

/// The part of a guest path below a prefix that it begins with.
pub fn relative_to<'a>(guest_path: &'a str, prefix: &str) -> (rest: &'a str)
    requires
        prefix_matches(guest_path@, prefix@),
    ensures
        rest@ == below(guest_path@, prefix@),
{
    let path = to_chars(guest_path);
    let at: usize = skip_slashes(&path, prefix.unicode_len());
    let rest = guest_path.substring_char(at, path.len());
    assert(rest@ =~= path@.skip(at as int));
    rest
}

/// A relative path under the working directory; `None` for a path from the root.
pub fn fallback_path(path: &str) -> (anchor: Option<String>)
    ensures
        match anchor {
            Some(a) => a@ == anchored(path@) && !(path@.len() > 0 && path@[0] == '/'),
            None => path@.len() > 0 && path@[0] == '/',
        },
{
    let chars = to_chars(path);
    if chars.len() > 0 && chars[0] == '/' {
        return None;
    }
    let mut i: usize = 0;
    assert(chars@.skip(0) =~= chars@);
    while chars.len() - i >= 2 && chars[i] == '.' && chars[i + 1] == '/'
        invariant
            i <= chars@.len(),
            trim_dot_slashes(chars@.skip(i as int)) == trim_dot_slashes(chars@),
        decreases chars@.len() - i,
    {
        assert(chars@.skip(i as int)[0] == '.');
        assert(chars@.skip(i as int)[1] == '/');
        assert(chars@.skip(i as int).skip(2) =~= chars@.skip(i + 2));
        i = i + 2;
    }
    assert(chars@.len() - i >= 2 ==> chars@.skip(i as int)[0] == chars@[i as int]
        && chars@.skip(i as int)[1] == chars@[i + 1]);
    let at: usize = skip_slashes(&chars, i);
    let rest = path.substring_char(at, chars.len());
    assert(rest@ =~= chars@.skip(at as int));
    let mut anchor = String::from_str("/app0/");
    anchor.append(rest);
    Some(anchor)
}

/// A path that names the working directory itself: nothing but slashes, or `.` and
/// slashes.
pub open spec fn is_root_name(path: Seq<char>) -> bool {
    is_here(trim_end_slashes(path))
}

/// Whether a path names the working directory itself.
pub fn names_root(path: &str) -> (b: bool)
    ensures
        b == is_root_name(path@),
{
    let chars = to_chars(path);
    let mut n: usize = chars.len();
    assert(chars@.take(n as int) =~= chars@);
    while n > 0 && chars[n - 1] == '/'
        invariant
            n <= chars@.len(),
            trim_end_slashes(chars@.take(n as int)) == trim_end_slashes(chars@),
        decreases n,
    {
        assert(chars@.take(n as int).drop_last() =~= chars@.take(n - 1));
        n = n - 1;
    }
    assert(n > 0 ==> chars@.take(n as int).last() == chars@[n - 1]);
    assert(trim_end_slashes(chars@) == chars@.take(n as int));
    if n == 0 {
        return true;
    }
    if n == 1 && chars[0] == '.' {
        assert(chars@.take(1) =~= seq!['.']);
        return true;
    }
    assert(n == 1 ==> chars@.take(1)[0] != '.');
    assert(chars@.take(n as int).len() == n);
    false
}

/// Whether a component names the directory it stands in.
fn here(chars: &Vec<char>, from: usize, to: usize) -> (b: bool)
    requires
        from <= to <= chars@.len(),
    ensures
        b == is_here(chars@.subrange(from as int, to as int)),
{
    let ghost c = chars@.subrange(from as int, to as int);
    if from == to {
        return true;
    }
    if to - from == 1 && chars[from] == '.' {
        assert(c =~= seq!['.']);
        return true;
    }
    assert(to - from == 1 ==> c[0] != '.');
    false
}

/// Whether a component names the parent directory.
fn parent(chars: &Vec<char>, from: usize, to: usize) -> (b: bool)
    requires
        from <= to <= chars@.len(),
    ensures
        b == is_parent(chars@.subrange(from as int, to as int)),
{
    let ghost c = chars@.subrange(from as int, to as int);
    if to - from == 2 && chars[from] == '.' && chars[from + 1] == '.' {
        assert(c =~= seq!['.', '.']);
        return true;
    }
    proof {
        let dots = seq!['.', '.'];
        assert(dots.len() == 2 && dots[0] == '.' && dots[1] == '.');
        if to - from == 2 {
            assert(c[0] == chars@[from as int] && c[1] == chars@[from + 1]);
        }
    }
    false
}

/// Splitting gives one component at least.
proof fn lemma_split_nonempty(s: Seq<char>)
    ensures
        split(s).len() >= 1,
    decreases s.len(),
{
    if s.len() > 0 {
        lemma_split_nonempty(s.drop_last());
    }
}

/// Characters without a slash extend the last component.
pub proof fn lemma_split_extend(s: Seq<char>, from: int, to: int)
    requires
        0 <= from <= to <= s.len(),
        forall|k: int| from <= k < to ==> s[k] != '/',
        from == 0 || s[from - 1] == '/',
    ensures
        split(s.take(to)).len() >= 1,
        split(s.take(to)).last() == s.subrange(from, to),
        split(s.take(to)).drop_last() == (if from == 0 {
            Seq::empty()
        } else {
            split(s.take(from - 1))
        }),
    decreases to,
{
    let t = s.take(to);
    if to == from {
        assert(s.subrange(from, to) =~= Seq::empty());
        if from == 0 {
            assert(t =~= Seq::empty());
            assert(split(t).drop_last() =~= Seq::empty());
        } else {
            assert(t.last() == '/');
            assert(t.drop_last() =~= s.take(from - 1));
            assert(split(t).drop_last() =~= split(s.take(from - 1)));
        }
    } else {
        lemma_split_extend(s, from, to - 1);
        assert(t.drop_last() =~= s.take(to - 1));
        assert(t.last() == s[to - 1]);
        assert(s.subrange(from, to - 1).push(s[to - 1]) =~= s.subrange(from, to));
        assert(split(t).drop_last() =~= split(s.take(to - 1)).drop_last());
    }
}

/// Once collapsing has failed, more components do not mend it.
proof fn lemma_collapse_fails(parts: Seq<Seq<char>>, n: int)
    requires
        0 <= n <= parts.len(),
        collapse(parts.take(n)) is None,
    ensures
        collapse(parts) is None,
    decreases parts.len() - n,
{
    if n < parts.len() {
        assert(parts.take(n + 1).drop_last() =~= parts.take(n));
        lemma_collapse_fails(parts, n + 1);
    } else {
        assert(parts.take(n) =~= parts);
    }
}

/// The components before a slash are the first components of the whole.
proof fn lemma_split_prefix(s: Seq<char>, at: int)
    requires
        0 <= at < s.len(),
        s[at] == '/',
    ensures
        split(s.take(at)).len() < split(s).len(),
        split(s).take(split(s.take(at)).len() as int) == split(s.take(at)),
    decreases s.len() - at,
{
    let p = split(s.take(at));
    lemma_split_nonempty(s.take(at));
    assert(s.take(at + 1).drop_last() =~= s.take(at));
    lemma_split_grows(s, at + 1, s.len() as int);
    let q = split(s.take(at + 1));
    assert(q == p.push(Seq::empty()));
    assert(s.take(s.len() as int) =~= s);
    assert(split(s).take(p.len() as int) =~= p) by {
        assert(q.take(p.len() as int) =~= p);
        assert(split(s).take(q.len() - 1) =~= q.take(q.len() - 1));
    }
}

/// More text changes the last component at most, and adds others.
proof fn lemma_split_grows(s: Seq<char>, m: int, n: int)
    requires
        0 <= m <= n <= s.len(),
    ensures
        split(s.take(m)).len() >= 1,
        split(s.take(m)).len() <= split(s.take(n)).len(),
        split(s.take(n)).take(split(s.take(m)).len() - 1) == split(s.take(m)).take(
            split(s.take(m)).len() - 1,
        ),
    decreases n - m,
{
    lemma_split_nonempty(s.take(m));
    if m < n {
        lemma_split_grows(s, m, n - 1);
        let k = split(s.take(m)).len() - 1;
        assert(s.take(n).drop_last() =~= s.take(n - 1));
        assert(split(s.take(n)).take(k) =~= split(s.take(n - 1)).take(k));
    }
}

/// Collapse `.` and `..` in a path below a mount.  `None` where a `..` climbs above it.
pub fn normalize_relative<'a>(relative: &'a str) -> (out: Option<Vec<&'a str>>)
    ensures
        match out {
            Some(v) => collapse(split(relative@)) == Some(texts(v@)),
            None => collapse(split(relative@)) is None,
        },
{
    let chars = to_chars(relative);
    let n: usize = chars.len();
    let mut out: Vec<&'a str> = Vec::new();
    let mut start: usize = 0;
    let mut i: usize = 0;
    assert(texts(out@) =~= Seq::empty());
    loop
        invariant_except_break
            chars@ == relative@,
            n == chars@.len(),
            start <= i <= n,
            forall|k: int| start <= k < i ==> chars@[k] != '/',
            start == 0 || chars@[start - 1] == '/',
            collapse(
                if start == 0 {
                    Seq::empty()
                } else {
                    split(chars@.take(start - 1))
                },
            ) == Some(texts(out@)),
        ensures
            collapse(split(relative@)) == Some(texts(out@)),
        decreases n - i, n + 1 - start,
    {
        if i < n && chars[i] != '/' {
            i = i + 1;
            continue ;
        }
        let ghost part = chars@.subrange(start as int, i as int);
        let ghost before = texts(out@);
        proof {
            lemma_split_extend(chars@, start as int, i as int);
        }
        if here(&chars, start, i) {
        } else if parent(&chars, start, i) {
            match out.pop() {
                Some(_) => {
                    assert(texts(out@) =~= before.drop_last());
                },
                None => {
                    proof {
                        assert(collapse(split(chars@.take(i as int))) is None);
                        if i < n {
                            lemma_split_prefix(chars@, i as int);
                            lemma_collapse_fails(
                                split(chars@),
                                split(chars@.take(i as int)).len() as int,
                            );
                        } else {
                            assert(chars@.take(i as int) =~= chars@);
                        }
                    }
                    return None;
                },
            }
        } else {
            let c = relative.substring_char(start, i);
            out.push(c);
            assert(texts(out@) =~= before.push(part));
        }
        assert(collapse(split(chars@.take(i as int))) == Some(texts(out@)));
        if i == n {
            assert(chars@.take(n as int) =~= chars@);
            break;
        }
        start = i + 1;
        i = i + 1;
    }
    Some(out)
}

/// A letter in lower case; any other character as it is.
pub open spec fn lower(c: char) -> char {
    if 'A' <= c && c <= 'Z' {
        ((c as u32) + 32) as char
    } else {
        c
    }
}

/// Two names are one when the case of letters is ignored.
pub open spec fn same_name(a: Seq<char>, b: Seq<char>) -> bool {
    &&& a.len() == b.len()
    &&& forall|i: int| 0 <= i < a.len() ==> lower(#[trigger] a[i]) == lower(b[i])
}

/// `a` comes before `b`, or is `b`, in the order of characters.
pub open spec fn not_after(a: Seq<char>, b: Seq<char>) -> bool
    decreases a.len(),
{
    if a.len() == 0 {
        true
    } else if b.len() == 0 {
        false
    } else if a[0] != b[0] {
        a[0] < b[0]
    } else {
        not_after(a.drop_first(), b.drop_first())
    }
}

fn to_lower(c: char) -> (l: u32)
    ensures
        l == lower(c) as u32,
{
    let n: u32 = c as u32;
    if 65 <= n && n <= 90 {
        n + 32
    } else {
        n
    }
}

/// Whether two names are one when the case of letters is ignored.
pub fn eq_ignore_case(a: &str, b: &str) -> (r: bool)
    ensures
        r == same_name(a@, b@),
{
    let x = to_chars(a);
    let y = to_chars(b);
    if x.len() != y.len() {
        return false;
    }
    let mut i: usize = 0;
    while i < x.len()
        invariant
            x@ == a@,
            y@ == b@,
            x@.len() == y@.len(),
            i <= x@.len(),
            forall|j: int| 0 <= j < i ==> lower(#[trigger] x@[j]) == lower(y@[j]),
        decreases x@.len() - i,
    {
        if to_lower(x[i]) != to_lower(y[i]) {
            assert(lower(a@[i as int]) != lower(b@[i as int]));
            return false;
        }
        i = i + 1;
    }
    true
}

/// Whether `a` comes before `b`, or is `b`.
pub fn in_order(a: &str, b: &str) -> (r: bool)
    ensures
        r == not_after(a@, b@),
{
    let x = to_chars(a);
    let y = to_chars(b);
    let mut i: usize = 0;
    assert(x@.skip(0) =~= x@);
    assert(y@.skip(0) =~= y@);
    while i < x.len()
        invariant
            x@ == a@,
            y@ == b@,
            i <= x@.len(),
            i <= y@.len(),
            not_after(x@.skip(i as int), y@.skip(i as int)) == not_after(a@, b@),
        decreases x@.len() - i,
    {
        let ghost p = x@.skip(i as int);
        let ghost q = y@.skip(i as int);
        if i >= y.len() {
            return false;
        }
        assert(p[0] == x@[i as int] && q[0] == y@[i as int]);
        if x[i] != y[i] {
            return x[i] < y[i];
        }
        assert(p.drop_first() =~= x@.skip(i + 1));
        assert(q.drop_first() =~= y@.skip(i + 1));
        i = i + 1;
    }
    true
}

/// The order of characters is an order: of any two names one comes first, and what comes
/// before a name comes before all that follow it.
pub proof fn law_names_are_ordered(a: Seq<char>, b: Seq<char>, c: Seq<char>)
    ensures
        not_after(a, b) || not_after(b, a),
        not_after(a, b) && not_after(b, c) ==> not_after(a, c),
        not_after(a, b) && not_after(b, a) ==> a == b,
    decreases a.len() + b.len() + c.len(),
{
    if a.len() > 0 && b.len() > 0 {
        let c1 = if c.len() > 0 {
            c.drop_first()
        } else {
            c
        };
        law_names_are_ordered(a.drop_first(), b.drop_first(), c1);
        if a[0] == b[0] && a.drop_first() == b.drop_first() {
            assert(a =~= seq![a[0]] + a.drop_first());
            assert(b =~= seq![b[0]] + b.drop_first());
        }
    } else if a.len() == 0 && b.len() == 0 {
        assert(a =~= b);
    }
}

/// Of the names in a directory, the one that stands for a component when the case of
/// letters is ignored: where there are several, the first in the order of characters.
pub fn fold_match(names: &Vec<String>, component: &str) -> (r: Option<usize>)
    ensures
        match r {
            Some(i) => {
                &&& i < names@.len()
                &&& same_name(names@[i as int]@, component@)
                &&& forall|j: int|
                    0 <= j < names@.len() && same_name((#[trigger] names@[j])@, component@)
                        ==> not_after(names@[i as int]@, names@[j]@)
            },
            None => forall|j: int|
                0 <= j < names@.len() ==> !same_name((#[trigger] names@[j])@, component@),
        },
{
    let mut best: Option<usize> = None;
    let mut i: usize = 0;
    while i < names.len()
        invariant
            i <= names@.len(),
            match best {
                Some(b) => {
                    &&& b < i
                    &&& same_name(names@[b as int]@, component@)
                    &&& forall|j: int|
                        0 <= j < i && same_name((#[trigger] names@[j])@, component@)
                            ==> not_after(names@[b as int]@, names@[j]@)
                },
                None => forall|j: int|
                    0 <= j < i ==> !same_name((#[trigger] names@[j])@, component@),
            },
        decreases names@.len() - i,
    {
        if eq_ignore_case(names[i].as_str(), component) {
            match best {
                Some(b) => {
                    if !in_order(names[b].as_str(), names[i].as_str()) {
                        proof {
                            let n = names@[i as int]@;
                            let o = names@[b as int]@;
                            law_names_are_ordered(n, o, o);
                            law_names_are_ordered(n, n, n);
                            assert forall|j: int|
                                0 <= j <= i && same_name(
                                    (#[trigger] names@[j])@,
                                    component@,
                                ) implies not_after(n, names@[j]@) by {
                                if j < i {
                                    law_names_are_ordered(n, o, names@[j]@);
                                }
                            }
                        }
                        best = Some(i);
                    }
                },
                None => {
                    proof {
                        let n = names@[i as int]@;
                        law_names_are_ordered(n, n, n);
                    }
                    best = Some(i);
                },
            }
        }
        i = i + 1;
    }
    best
}

/// Where a path goes on from a directory.
#[derive(Clone, Copy, Debug, PartialEq, Eq, Structural)]
pub enum Descent {
    /// To what has the component's own name.
    Exact,
    /// To the entry of this number, whose name differs in the case of letters only.
    Entry(usize),
    /// Nowhere: there is no such entry.
    Stop,
}

/// Where a path goes on from a directory.  The directory's names are asked for only where
/// nothing has the component's own name; `None` stands for a directory that cannot be
/// listed.
pub fn descend(component: &str, exact: bool, names: Option<&Vec<String>>) -> (d: Descent)
    ensures
        match d {
            Descent::Exact => exact,
            Descent::Entry(i) => {
                &&& !exact
                &&& names matches Some(v)
                &&& i < v@.len()
                &&& same_name(v@[i as int]@, component@)
                &&& forall|j: int|
                    0 <= j < v@.len() && same_name((#[trigger] v@[j])@, component@) ==> not_after(
                        v@[i as int]@,
                        v@[j]@,
                    )
            },
            Descent::Stop => {
                &&& !exact
                &&& names matches Some(v) ==> forall|j: int|
                    0 <= j < v@.len() ==> !same_name((#[trigger] v@[j])@, component@)
            },
        },
{
    if exact {
        return Descent::Exact;
    }
    match names {
        Some(v) => match fold_match(v, component) {
            Some(i) => Descent::Entry(i),
            None => Descent::Stop,
        },
        None => Descent::Stop,
    }
}

/// A path lies in a directory: its components begin with those of the directory.
pub open spec fn lies_within(path: Seq<Seq<char>>, root: Seq<Seq<char>>) -> bool {
    root.len() <= path.len() && path.take(root.len() as int) == root
}

/// The text of each name.
pub open spec fn names_of(v: Seq<String>) -> Seq<Seq<char>> {
    Seq::new(v.len(), |i: int| v[i]@)
}

/// Whether a path lies in a directory, both without links.
pub fn is_within(path: &Vec<String>, root: &Vec<String>) -> (b: bool)
    ensures
        b == lies_within(names_of(path@), names_of(root@)),
{
    let ghost p = names_of(path@);
    let ghost r = names_of(root@);
    if root.len() > path.len() {
        return false;
    }
    let mut i: usize = 0;
    while i < root.len()
        invariant
            p == names_of(path@),
            r == names_of(root@),
            root@.len() <= path@.len(),
            i <= root@.len(),
            forall|j: int| 0 <= j < i ==> p[j] == r[j],
        decreases root@.len() - i,
    {
        if path[i] != root[i] {
            assert(p.take(r.len() as int)[i as int] != r[i as int]);
            return false;
        }
        i = i + 1;
    }
    assert(p.take(r.len() as int) =~= r);
    true
}

/// What survives a collapse names no directory above the start: no component is empty,
/// `.` or `..`, so that following them only ever descends.
pub proof fn law_collapsed_paths_only_descend(parts: Seq<Seq<char>>)
    ensures
        collapse(parts) matches Some(out) ==> forall|i: int|
            0 <= i < out.len() ==> !is_here(#[trigger] out[i]) && !is_parent(out[i]),
    decreases parts.len(),
{
    if parts.len() > 0 {
        law_collapsed_paths_only_descend(parts.drop_last());
        let c = parts.last();
        assert(seq!['.', '.'].len() == 2 && seq!['.'].len() == 1);
        if let Some(front) = collapse(parts.drop_last()) {
            if let Some(out) = collapse(parts) {
                assert forall|i: int| 0 <= i < out.len() implies !is_here(#[trigger] out[i])
                    && !is_parent(out[i]) by {
                    if i < front.len() {
                        assert(out[i] == front[i]);
                    }
                }
            }
        }
    }
}

/// Collapsing what was collapsed changes nothing.
pub proof fn law_collapse_is_idempotent(parts: Seq<Seq<char>>)
    ensures
        collapse(parts) matches Some(out) ==> collapse(out) == Some(out),
{
    law_collapsed_paths_only_descend(parts);
    if let Some(out) = collapse(parts) {
        lemma_collapse_plain(out);
    }
}

/// Components that are names survive as they are.
proof fn lemma_collapse_plain(parts: Seq<Seq<char>>)
    requires
        forall|i: int|
            0 <= i < parts.len() ==> !is_here(#[trigger] parts[i]) && !is_parent(parts[i]),
    ensures
        collapse(parts) == Some(parts),
    decreases parts.len(),
{
    if parts.len() > 0 {
        let front = parts.drop_last();
        assert forall|i: int| 0 <= i < front.len() implies !is_here(#[trigger] front[i])
            && !is_parent(front[i]) by {
            assert(front[i] == parts[i]);
        }
        lemma_collapse_plain(front);
        assert(front.push(parts.last()) =~= parts);
    } else {
        assert(parts =~= Seq::empty());
    }
}

/// A component followed by `..` leaves nothing: `a/b/..` is `a`.
pub proof fn law_parent_undoes_a_component(parts: Seq<Seq<char>>, c: Seq<char>)
    requires
        !is_here(c),
        !is_parent(c),
    ensures
        collapse(parts.push(c).push(seq!['.', '.'])) == collapse(parts),
{
    let a = parts.push(c);
    let b = a.push(seq!['.', '.']);
    assert(a.drop_last() =~= parts);
    assert(b.drop_last() =~= a);
    assert(seq!['.', '.'].len() == 2 && seq!['.'].len() == 1);
    assert(b.last() == seq!['.', '.']);
    assert(a.last() == c);
    if let Some(out) = collapse(parts) {
        assert(collapse(a) == Some(out.push(c)));
        assert(out.push(c).drop_last() =~= out);
    }
}

/// A `..` that has nothing to undo is refused, and so is every path that goes on from it.
pub proof fn law_climbing_is_refused(parts: Seq<Seq<char>>, n: int)
    requires
        0 <= n < parts.len(),
        collapse(parts.take(n)) == Some(Seq::<Seq<char>>::empty()),
        is_parent(parts[n]),
    ensures
        collapse(parts) is None,
{
    assert(parts.take(n + 1).drop_last() =~= parts.take(n));
    assert(seq!['.', '.'].len() == 2 && seq!['.'].len() == 1);
    assert(parts.take(n + 1).last() == parts[n]);
    lemma_collapse_fails(parts, n + 1);
}

/// The components that are names: neither `.`, `..` nor empty.
pub open spec fn names(parts: Seq<Seq<char>>) -> Seq<Seq<char>>
    decreases parts.len(),
{
    if parts.len() == 0 {
        Seq::empty()
    } else {
        let c = parts.last();
        if is_here(c) || is_parent(c) {
            names(parts.drop_last())
        } else {
            names(parts.drop_last()).push(c)
        }
    }
}

/// How many components are `..`.
pub open spec fn parents(parts: Seq<Seq<char>>) -> nat
    decreases parts.len(),
{
    if parts.len() == 0 {
        0
    } else {
        parents(parts.drop_last()) + if is_parent(parts.last()) {
            1nat
        } else {
            0nat
        }
    }
}

/// The first `n` components hold more `..` than names.
pub open spec fn climbs(parts: Seq<Seq<char>>, n: int) -> bool {
    parents(parts.take(n)) > names(parts.take(n)).len()
}

/// `out` is made of the components of `all` at the places `at`, in their order.
pub open spec fn picks(out: Seq<Seq<char>>, all: Seq<Seq<char>>, at: Seq<int>) -> bool {
    &&& at.len() == out.len()
    &&& forall|i: int| 0 <= i < at.len() ==> 0 <= #[trigger] at[i] < all.len()
    &&& forall|i: int, j: int| 0 <= i < j < at.len() ==> #[trigger] at[i] < #[trigger] at[j]
    &&& forall|i: int| 0 <= i < at.len() ==> out[i] == all[#[trigger] at[i]]
}

/// A path is refused exactly where some beginning of it holds more `..` than names.  Of any
/// other there survive as many names as it has more names than `..`, in their order.
pub proof fn law_collapse_counts(parts: Seq<Seq<char>>)
    ensures
        collapse(parts) is None <==> exists|n: int|
            0 <= n <= parts.len() && #[trigger] climbs(parts, n),
        collapse(parts) matches Some(out) ==> {
            &&& out.len() == names(parts).len() - parents(parts)
            &&& exists|at: Seq<int>| picks(out, names(parts), at)
        },
    decreases parts.len(),
{
    let whole = parts.len() as int;
    assert(parts.take(whole) =~= parts);
    if whole == 0 {
        assert(!climbs(parts, 0));
        assert(picks(Seq::empty(), names(parts), Seq::empty()));
    } else {
        let front = parts.drop_last();
        let c = parts.last();
        assert(seq!['.', '.'].len() == 2 && seq!['.'].len() == 1);
        law_collapse_counts(front);
        assert forall|n: int| 0 <= n < whole implies #[trigger] climbs(parts, n) == climbs(
            front,
            n,
        ) by {
            assert(parts.take(n) =~= front.take(n));
        }
        match collapse(front) {
            None => {
                let n = choose|n: int| 0 <= n <= front.len() && #[trigger] climbs(front, n);
                assert(climbs(parts, n));
            },
            Some(kept) => {
                let at = choose|at: Seq<int>| picks(kept, names(front), at);
                if is_here(c) {
                    assert(!climbs(parts, whole));
                } else if is_parent(c) {
                    if kept.len() == 0 {
                        assert(climbs(parts, whole));
                    } else {
                        assert(!climbs(parts, whole));
                        assert(picks(kept.drop_last(), names(parts), at.drop_last()));
                    }
                } else {
                    assert(!climbs(parts, whole));
                    let more = at.push(names(front).len() as int);
                    let out = kept.push(c);
                    assert forall|i: int| 0 <= i < more.len() implies out[i] == names(
                        parts,
                    )[#[trigger] more[i]] by {
                        if i < at.len() {
                            assert(at[i] == more[i]);
                        }
                    }
                    assert forall|i: int, j: int| 0 <= i < j < more.len() implies #[trigger] more[i]
                        < #[trigger] more[j] by {
                        assert(more[i] == at[i]);
                        if j < at.len() {
                            assert(more[j] == at[j]);
                        }
                    }
                    assert(picks(out, names(parts), more));
                }
            },
        }
    }
}

/// What is left of a path is one in normal form: its components are names without a slash,
/// and it collapses to itself when it is written out again.
pub proof fn law_normal_form(s: Seq<char>)
    ensures
        collapse(split(s)) matches Some(out) ==> {
            &&& forall|i: int| 0 <= i < out.len() ==> is_plain(#[trigger] out[i])
            &&& collapse(split(join(out))) == Some(out)
        },
{
    let parts = split(s);
    law_split_and_join(s);
    law_collapse_counts(parts);
    law_collapsed_paths_only_descend(parts);
    if let Some(out) = collapse(parts) {
        let at = choose|at: Seq<int>| picks(out, names(parts), at);
        assert forall|i: int| 0 <= i < parts.len() implies no_slash(#[trigger] parts[i]) by {
            assert forall|k: int| 0 <= k < parts[i].len() implies parts[i][k] != '/' by {
                assert(split(s)[i][k] != '/');
            }
        }
        lemma_names_hold(parts);
        assert forall|i: int| 0 <= i < out.len() implies is_plain(#[trigger] out[i]) by {
            assert(out[i] == names(parts)[at[i]]);
        }
        if out.len() == 0 {
            assert(join(out) =~= Seq::empty());
            let again = split(join(out));
            assert(again =~= seq![Seq::<char>::empty()]);
            assert(again.drop_last() =~= Seq::empty());
            assert(out =~= Seq::empty());
            assert(is_here(again.last()));
            assert(collapse(again) == collapse(again.drop_last()));
        } else {
            lemma_join_and_split(out);
            lemma_collapse_plain(out);
        }
    }
}

/// A component without a slash.
pub open spec fn no_slash(c: Seq<char>) -> bool {
    forall|k: int| 0 <= k < c.len() ==> #[trigger] c[k] != '/'
}

/// A component that is a name, and one component.
pub open spec fn is_plain(c: Seq<char>) -> bool {
    !is_here(c) && !is_parent(c) && no_slash(c)
}

/// The names among components without slashes have none.
proof fn lemma_names_hold(parts: Seq<Seq<char>>)
    requires
        forall|i: int| 0 <= i < parts.len() ==> no_slash(#[trigger] parts[i]),
    ensures
        forall|i: int| 0 <= i < names(parts).len() ==> is_plain(#[trigger] names(parts)[i]),
    decreases parts.len(),
{
    if parts.len() > 0 {
        let front = parts.drop_last();
        assert forall|i: int| 0 <= i < front.len() implies no_slash(#[trigger] front[i]) by {
            assert(front[i] == parts[i]);
        }
        lemma_names_hold(front);
        assert(no_slash(parts[parts.len() - 1]));
        assert forall|i: int| 0 <= i < names(parts).len() implies is_plain(
            #[trigger] names(parts)[i],
        ) by {
            if i < names(front).len() {
                assert(names(parts)[i] == names(front)[i]);
            }
        }
    }
}

/// Components without slashes come apart again as they were put together.
proof fn lemma_join_and_split(parts: Seq<Seq<char>>)
    requires
        parts.len() > 0,
        forall|i: int| 0 <= i < parts.len() ==> no_slash(#[trigger] parts[i]),
    ensures
        split(join(parts)) == parts,
    decreases parts.len(),
{
    let s = join(parts);
    let to = s.len() as int;
    let last = parts.last();
    assert(no_slash(parts[parts.len() - 1]));
    assert(s.take(to) =~= s);
    if parts.len() == 1 {
        assert(s == last);
        lemma_split_extend(s, 0, to);
        assert(s.subrange(0, to) =~= last);
        assert(split(s) =~= split(s).drop_last().push(split(s).last()));
        assert(split(s) =~= parts);
    } else {
        let front = parts.drop_last();
        assert forall|i: int| 0 <= i < front.len() implies no_slash(#[trigger] front[i]) by {
            assert(front[i] == parts[i]);
        }
        lemma_join_and_split(front);
        let from = join(front).len() as int + 1;
        assert(s[from - 1] == '/');
        assert(s.subrange(from, to) =~= last);
        assert forall|k: int| from <= k < to implies s[k] != '/' by {
            assert(s[k] == last[k - from]);
        }
        assert(s.take(from - 1) =~= join(front));
        lemma_split_extend(s, from, to);
        assert(split(s) =~= split(s).drop_last().push(split(s).last()));
        assert(split(s) =~= parts);
    }
}

/// Splitting loses nothing, and no component holds a slash.
pub proof fn law_split_and_join(s: Seq<char>)
    ensures
        join(split(s)) == s,
        forall|i: int, k: int|
            0 <= i < split(s).len() && 0 <= k < split(s)[i].len() ==> (
            #[trigger] split(s)[i][k]) != '/',
    decreases s.len(),
{
    if s.len() == 0 {
        assert(split(s)[0] == s);
    } else {
        let t = s.drop_last();
        let p = split(t);
        law_split_and_join(t);
        lemma_split_nonempty(t);
        let q = split(s);
        if s.last() == '/' {
            assert(q.drop_last() =~= p);
            assert(join(q) =~= s);
            assert forall|i: int, k: int| 0 <= i < q.len() && 0 <= k < q[i].len() implies (
            #[trigger] q[i][k]) != '/' by {
                assert(i < p.len());
                assert(q[i] == p[i]);
                assert(p[i][k] != '/');
            }
        } else {
            assert(q.drop_last() =~= p.drop_last());
            assert(q.last() == p.last().push(s.last()));
            assert(join(q) =~= join(p).push(s.last()));
            assert(join(q) =~= s);
            assert forall|i: int, k: int| 0 <= i < q.len() && 0 <= k < q[i].len() implies (
            #[trigger] q[i][k]) != '/' by {
                if i < q.len() - 1 {
                    assert(q[i] == p[i]);
                    assert(p[i][k] != '/');
                } else {
                    assert(q[i] == p[p.len() - 1].push(s.last()));
                    if k < p[p.len() - 1].len() {
                        assert(q[i][k] == p[p.len() - 1][k]);
                    }
                }
            }
        }
    }
}

/// A mount matches a path at the end of a component only: a path that goes on with
/// another character than a slash is not below the mount.
pub proof fn law_prefix_ends_a_component(prefix: Seq<char>, c: char, rest: Seq<char>)
    requires
        prefix.len() > 0,
        prefix.last() != '/',
        c != '/',
    ensures
        !prefix_matches(prefix.push(c) + rest, prefix),
        prefix_matches(prefix, prefix),
        prefix_matches(prefix.push('/') + rest, prefix),
        below(prefix.push('/') + rest, prefix) == trim_slashes(rest),
{
    let path = prefix.push(c) + rest;
    assert(path[prefix.len() as int] == c);
    assert(prefix.take(prefix.len() as int) =~= prefix);
    let child = prefix.push('/') + rest;
    assert(child[prefix.len() as int] == '/');
    assert(child.take(prefix.len() as int) =~= prefix);
    let tail = child.skip(prefix.len() as int);
    assert(tail[0] == '/');
    assert(tail.drop_first() =~= rest);
}

/// An empty component and "." go nowhere, ".." goes back by one, and any other is gone down to.
pub proof fn law_components_lead(parts: Seq<Seq<char>>, c: Seq<char>)
    ensures
        collapse(Seq::<Seq<char>>::empty()) == Some(Seq::<Seq<char>>::empty()),
        collapse(parts) is None ==> collapse(parts.push(c)) is None,
        collapse(parts) matches Some(out) ==> {
            &&& c.len() == 0 || c == seq!['.'] ==> collapse(parts.push(c)) == Some(out)
            &&& c == seq!['.', '.'] && out.len() == 0 ==> collapse(parts.push(c)) is None
            &&& c == seq!['.', '.'] && out.len() > 0 ==> collapse(parts.push(c)) == Some(
                out.drop_last(),
            )
            &&& c.len() > 0 && c != seq!['.'] && c != seq!['.', '.'] ==> collapse(parts.push(c))
                == Some(out.push(c))
        },
{
    assert(parts.push(c).drop_last() =~= parts);
    let dot = seq!['.'];
    let dots = seq!['.', '.'];
    assert(dot.len() == 1 && dots.len() == 2);
}

/// A path lies under a prefix exactly where it is the prefix with something behind it: nothing,
/// something that begins with a slash, or anything where the prefix ends in one.
pub proof fn law_prefixes(path: Seq<char>, prefix: Seq<char>, rest: Seq<char>)
    ensures
        path == prefix + rest ==> (prefix_matches(path, prefix) <==> rest.len() == 0 || rest[0]
            == '/' || (prefix.len() > 0 && prefix.last() == '/')),
        path == prefix + rest ==> below(path, prefix) == trim_slashes(rest),
        prefix_matches(path, prefix) ==> path == prefix + path.skip(prefix.len() as int),
{
    if path == prefix + rest {
        assert(path.take(prefix.len() as int) =~= prefix);
        assert(path.skip(prefix.len() as int) =~= rest);
    }
    if prefix_matches(path, prefix) {
        assert(path =~= path.take(prefix.len() as int) + path.skip(prefix.len() as int));
    }
}

/// Slashes in front are taken away, all of them, and nothing else is.
pub proof fn law_slashes_are_trimmed(s: Seq<char>)
    ensures
        s.len() == 0 || s[0] != '/' ==> trim_slashes(s) == s && trim_slashes(seq!['/'] + s) == s,
        trim_slashes(seq!['/'] + s) == trim_slashes(s),
        s.len() == 0 || s.last() != '/' ==> trim_end_slashes(s) == s,
        trim_end_slashes(s.push('/')) == trim_end_slashes(s),
{
    let slashed = seq!['/'] + s;
    assert(slashed[0] == '/');
    assert(slashed.drop_first() =~= s);
    assert(trim_slashes(slashed) == trim_slashes(s));
    assert(s.push('/').drop_last() =~= s);
}

/// A relative path is looked for under "/app0/": as it is, once a "./" in front, or several, and
/// then slashes, are gone.
pub proof fn law_relative_paths_are_anchored(s: Seq<char>)
    ensures
        anchored(s).take(6) == seq!['/', 'a', 'p', 'p', '0', '/'],
        anchored(seq!['.', '/'] + s) == anchored(s),
        (s.len() == 0 || s[0] != '/') && (s.len() < 2 || s[0] != '.' || s[1] != '/') ==> anchored(
            s,
        ).skip(6) == s,
        s.len() > 0 && s[0] == '/' ==> anchored(s).skip(6) == trim_slashes(s),
{
    reveal_strlit("/app0/");
    let dotted = seq!['.', '/'] + s;
    assert(dotted.skip(2) =~= s);
    assert(anchored(s).take(6) =~= seq!['/', 'a', 'p', 'p', '0', '/']);
    assert(anchored(s).skip(6) =~= trim_slashes(trim_dot_slashes(s)));
}

/// The working directory is named by nothing and by ".", with any slashes behind; and by nothing
/// else.
pub proof fn law_root_names(s: Seq<char>)
    ensures
        is_root_name(s.push('/')) == is_root_name(s),
        s.len() == 0 || s.last() != '/' ==> (is_root_name(s) <==> s.len() == 0 || s == seq!['.']),
{
    assert(s.push('/').drop_last() =~= s);
}

/// Two names are one exactly where they are as long as each other, and each character is the
/// other's, or the two are one of the 26 letters in two cases, 32 apart.
pub proof fn law_same_names(a: Seq<char>, b: Seq<char>)
    ensures
        same_name(a, b) <==> a.len() == b.len() && forall|i: int|
            0 <= i < a.len() ==> same_letter(#[trigger] a[i], b[i]),
{
    if a.len() == b.len() {
        assert forall|i: int| 0 <= i < a.len() implies (lower(#[trigger] a[i]) == lower(b[i]))
            == same_letter(a[i], b[i]) by {
        }
        if same_name(a, b) {
            assert forall|i: int| 0 <= i < a.len() implies same_letter(#[trigger] a[i], b[i]) by {
                assert(lower(a[i]) == lower(b[i]));
            }
        }
        if forall|i: int| 0 <= i < a.len() ==> same_letter(#[trigger] a[i], b[i]) {
            assert forall|i: int| 0 <= i < a.len() implies lower(#[trigger] a[i]) == lower(b[i]) by {
                assert(same_letter(a[i], b[i]));
            }
        }
    }
}

/// The characters are one, or one letter in two cases.
pub open spec fn same_letter(a: char, b: char) -> bool {
    ||| a == b
    ||| 'A' <= a <= 'Z' && b as int == a as int + 32
    ||| 'A' <= b <= 'Z' && a as int == b as int + 32
}

/// Names are ordered by the first character in which they differ; a name comes before all that go
/// on from it.
pub proof fn law_first_difference_orders(
    front: Seq<char>,
    x: char,
    y: char,
    s: Seq<char>,
    t: Seq<char>,
)
    requires
        x < y,
    ensures
        not_after(front + (seq![x] + s), front + (seq![y] + t)),
        !not_after(front + (seq![y] + t), front + (seq![x] + s)),
        not_after(front, front + s),
        s.len() > 0 ==> !not_after(front + s, front),
    decreases front.len(),
{
    let a = front + (seq![x] + s);
    let b = front + (seq![y] + t);
    if front.len() > 0 {
        let rest = front.drop_first();
        law_first_difference_orders(rest, x, y, s, t);
        assert(a.drop_first() =~= rest + (seq![x] + s));
        assert(b.drop_first() =~= rest + (seq![y] + t));
        assert((front + s).drop_first() =~= rest + s);
    } else {
        assert(front + s =~= s);
    }
}

/// A path lies in a directory exactly where it goes through all of the directory's components, in
/// order, before it goes on.
pub proof fn law_lies_within(path: Seq<Seq<char>>, root: Seq<Seq<char>>, rest: Seq<Seq<char>>)
    ensures
        lies_within(root + rest, root),
        lies_within(path, root) ==> path == root + path.skip(root.len() as int),
{
    assert((root + rest).take(root.len() as int) =~= root);
    if lies_within(path, root) {
        assert(path =~= path.take(root.len() as int) + path.skip(root.len() as int));
    }
}

} // verus!
