//! Paths as text.

use vstd::prelude::*;
use crate::text;
use crate::text::{chars_of, joined, str_eq, string_of_range};

verus! {

/// `tail` below `base`: an absolute `tail` stands alone, and so does one below
/// nothing.
pub open spec fn join_of_paths(base: Seq<char>, tail: Seq<char>) -> Seq<char> {
    if base.len() == 0 || (tail.len() > 0 && tail[0] == '/') {
        tail
    } else if base.last() == '/' {
        base + tail
    } else {
        base + "/"@ + tail
    }
}

/// `tail` below `base`.
pub fn join_path(base: &str, tail: &str) -> (r: String)
    ensures
        r@ == join_of_paths(base@, tail@),
{
    let b: Vec<char> = chars_of(base);
    let t: Vec<char> = chars_of(tail);
    if b.len() == 0 || (t.len() > 0 && t[0] == '/') {
        tail.to_owned()
    } else if b[b.len() - 1] == '/' {
        joined(base, tail)
    } else {
        let mut out: String = joined(base, "/");
        out.push_str(tail);
        out
    }
}

/// Whether a path starts at the root.
pub open spec fn is_absolute_of(path: Seq<char>) -> bool {
    path.len() > 0 && path[0] == '/'
}

/// Whether a path starts at the root.
pub fn is_absolute(path: &str) -> (r: bool)
    ensures
        r == is_absolute_of(path@),
{
    let v: Vec<char> = chars_of(path);
    v.len() > 0 && v[0] == '/'
}

/// The number of characters after the last slash.
pub open spec fn tail_len(path: Seq<char>) -> nat
    decreases path.len(),
{
    if path.len() == 0 || path.last() == '/' {
        0
    } else {
        1 + tail_len(path.drop_last())
    }
}

pub proof fn lemma_tail_len(path: Seq<char>)
    ensures
        tail_len(path) <= path.len(),
        forall|i: int| path.len() - tail_len(path) <= i < path.len() ==> #[trigger] path[i] != '/',
        tail_len(path) < path.len() ==> path[path.len() - tail_len(path) - 1] == '/',
    decreases path.len(),
{
    if path.len() > 0 && path.last() != '/' {
        let p = path.drop_last();
        lemma_tail_len(p);
        assert forall|i: int| path.len() - tail_len(path) <= i < path.len() implies #[trigger] path[i]
            != '/' by {
            if i < path.len() - 1 {
                assert(p[i] == path[i]);
            }
        }
        if tail_len(path) < path.len() {
            assert(p[p.len() - tail_len(p) - 1] == path[path.len() - tail_len(path) - 1]);
        }
    }
}

/// The last component of a path. Slashes and `.` at the end do not count; a
/// path that ends in `..`, the root and the empty path have none.
pub open spec fn file_name_of(path: Seq<char>) -> Option<Seq<char>>
    decreases path.len(),
{
    let n = tail_len(path) as int;
    let last = path.skip(path.len() - n);
    if path.len() == 0 {
        None
    } else if n == 0 {
        file_name_of(path.drop_last())
    } else if last == "."@ {
        if n == path.len() {
            None
        } else {
            proof {
                lemma_tail_len(path);
            }
            file_name_of(path.take(path.len() - n))
        }
    } else if last == ".."@ {
        None
    } else {
        Some(last)
    }
}

/// The last component of a path.
pub fn file_name(path: &str) -> (r: Option<String>)
    ensures
        text::opt_view(r) == file_name_of(path@),
{
    let v: Vec<char> = chars_of(path);
    let mut n: usize = v.len();
    proof {
        assert(v@.take(n as int) =~= v@);
    }
    loop
        invariant
            v@ == path@,
            n <= v@.len(),
            file_name_of(v@) == file_name_of(v@.take(n as int)),
        decreases n,
    {
        let ghost p = v@.take(n as int);
        if n == 0 {
            return None;
        }
        proof {
            lemma_tail_len(p);
            assert(p.last() == v@[n - 1]);
            assert(p.drop_last() =~= v@.take(n as int - 1));
        }
        if v[n - 1] == '/' {
            n -= 1;
            continue;
        }
        let mut start: usize = n;
        while start > 0 && v[start - 1] != '/'
            invariant
                0 <= start <= n <= v@.len(),
                p == v@.take(n as int),
                n - start <= tail_len(p),
                tail_len(p) <= p.len(),
                forall|i: int| p.len() - tail_len(p) <= i < p.len() ==> #[trigger] p[i] != '/',
                tail_len(p) < p.len() ==> p[p.len() - tail_len(p) - 1] == '/',
            decreases start,
        {
            proof {
                assert(p[start - 1] == v@[start - 1]);
            }
            start -= 1;
        }
        proof {
            if start > 0 {
                assert(p[start - 1] == v@[start - 1]);
            }
            assert(n - start == tail_len(p));
            assert(p.skip(start as int) =~= v@.subrange(start as int, n as int));
            assert(p.take(start as int) =~= v@.take(start as int));
        }
        let last: String = string_of_range(&v, start, n);
        if str_eq(last.as_str(), ".") {
            if start == 0 {
                return None;
            }
            n = start;
            continue;
        }
        if str_eq(last.as_str(), "..") {
            return None;
        }
        return Some(last);
    }
}

/// Where the last component of a path starts and ends, where it has one.
pub open spec fn name_span(path: Seq<char>) -> Option<(nat, nat)>
    decreases path.len(),
{
    let n = tail_len(path) as int;
    let last = path.skip(path.len() - n);
    if path.len() == 0 {
        None
    } else if n == 0 {
        name_span(path.drop_last())
    } else if last == "."@ {
        if n == path.len() {
            None
        } else {
            proof {
                lemma_tail_len(path);
            }
            name_span(path.take(path.len() - n))
        }
    } else if last == ".."@ {
        None
    } else {
        Some(((path.len() - n) as nat, path.len()))
    }
}

pub proof fn lemma_name_span(path: Seq<char>)
    ensures
        name_span(path) is Some <==> file_name_of(path) is Some,
        name_span(path) matches Some((a, b)) ==> a < b <= path.len() && path.subrange(a as int, b as int)
            == file_name_of(path)->0,
    decreases path.len(),
{
    lemma_tail_len(path);
    let n = tail_len(path) as int;
    let last = path.skip(path.len() - n);
    if path.len() == 0 {
    } else if n == 0 {
        let p = path.drop_last();
        lemma_name_span(p);
        if let Some((a, b)) = name_span(p) {
            assert(p.subrange(a as int, b as int) =~= path.subrange(a as int, b as int));
        }
    } else if last == "."@ {
        if n != path.len() {
            let p = path.take(path.len() - n);
            lemma_name_span(p);
            if let Some((a, b)) = name_span(p) {
                assert(p.subrange(a as int, b as int) =~= path.subrange(a as int, b as int));
            }
        }
    } else if last != ".."@ {
        assert(path.subrange(path.len() - n, path.len() as int) =~= last);
    }
}

/// The path whose last component has `suffix` behind it. What followed that
/// component (slashes, a `.`) is dropped; a path without one gets `suffix` as its
/// last component.
pub open spec fn suffixed_of(path: Seq<char>, suffix: Seq<char>) -> Seq<char> {
    match name_span(path) {
        Some((a, b)) => path.take(b as int) + suffix,
        None => join_of_paths(path, suffix),
    }
}

/// A suffix that starts a name makes another path.
pub proof fn lemma_suffixed_differs(path: Seq<char>, suffix: Seq<char>)
    requires
        suffix.len() >= 3,
        suffix[0] == '.',
        suffix.last() != '/',
        suffix.last() != '.',
    ensures
        suffixed_of(path, suffix) != path,
{
    lemma_name_span(path);
    lemma_tail_len(path);
    let s = suffixed_of(path, suffix);
    match name_span(path) {
        Some((a, b)) => {
            assert(s.last() == suffix.last());
            if s == path {
                assert(path.last() == suffix.last());
                lemma_span_end(path);
                assert(s.len() == b + suffix.len());
            }
        },
        None => {
            if s == path {
                assert(s.len() >= suffix.len());
                assert(s.len() != path.len());
            }
        },
    }
}

/// A path that ends in neither a slash nor a dot ends with its last component.
proof fn lemma_span_end(path: Seq<char>)
    requires
        path.len() > 0,
        path.last() != '/',
        path.last() != '.',
    ensures
        name_span(path) matches Some((a, b)) && b == path.len(),
{
    lemma_tail_len(path);
    let n = tail_len(path) as int;
    let last = path.skip(path.len() - n);
    reveal_strlit(".");
    reveal_strlit("..");
    assert(last.last() == path.last());
}

/// The path whose last component has `suffix` behind it.
pub fn with_name_suffix(path: &str, suffix: &str) -> (r: String)
    ensures
        r@ == suffixed_of(path@, suffix@),
{
    let v: Vec<char> = chars_of(path);
    let mut n: usize = v.len();
    proof {
        assert(v@.take(n as int) =~= v@);
    }
    loop
        invariant
            v@ == path@,
            n <= v@.len(),
            name_span(v@) == name_span(v@.take(n as int)),
        decreases n,
    {
        let ghost p = v@.take(n as int);
        if n == 0 {
            return join_path(path, suffix);
        }
        proof {
            lemma_tail_len(p);
            assert(p.last() == v@[n - 1]);
            assert(p.drop_last() =~= v@.take(n as int - 1));
        }
        if v[n - 1] == '/' {
            n -= 1;
            continue;
        }
        let mut start: usize = n;
        while start > 0 && v[start - 1] != '/'
            invariant
                0 <= start <= n <= v@.len(),
                p == v@.take(n as int),
                n - start <= tail_len(p),
                tail_len(p) <= p.len(),
                forall|i: int| p.len() - tail_len(p) <= i < p.len() ==> #[trigger] p[i] != '/',
                tail_len(p) < p.len() ==> p[p.len() - tail_len(p) - 1] == '/',
            decreases start,
        {
            proof {
                assert(p[start - 1] == v@[start - 1]);
            }
            start -= 1;
        }
        proof {
            if start > 0 {
                assert(p[start - 1] == v@[start - 1]);
            }
            assert(n - start == tail_len(p));
            assert(p.skip(start as int) =~= v@.subrange(start as int, n as int));
            assert(p.take(start as int) =~= v@.take(start as int));
        }
        let last: String = string_of_range(&v, start, n);
        if str_eq(last.as_str(), ".") {
            if start == 0 {
                return join_path(path, suffix);
            }
            n = start;
            continue;
        }
        if str_eq(last.as_str(), "..") {
            return join_path(path, suffix);
        }
        proof {
            assert(v@.subrange(0, n as int) =~= v@.take(n as int));
        }
        let head: String = string_of_range(&v, 0, n);
        return joined(head.as_str(), suffix);
    }
}

// ── Components ──────────────────────────────────────────────────────────────

/// What stands between the slashes of a path, without what is empty and without
/// the dots that name nothing. A dot that a relative path starts with stays.
pub open spec fn components_of(path: Seq<char>) -> Seq<Seq<char>>
    decreases path.len(),
{
    if path.len() == 0 {
        Seq::empty()
    } else {
        proof {
            lemma_tail_len(path);
        }
        let n = tail_len(path) as int;
        let last = path.skip(path.len() - n);
        let rest = if n < path.len() {
            components_of(path.take(path.len() - n - 1))
        } else {
            Seq::empty()
        };
        if n == 0 || (last == "."@ && n < path.len()) {
            rest
        } else {
            rest.push(last)
        }
    }
}

/// A path made of components.
pub open spec fn path_of(absolute: bool, parts: Seq<Seq<char>>) -> Seq<char> {
    (if absolute {
        "/"@
    } else {
        Seq::empty()
    }) + text::join_of(parts, "/"@)
}

/// A path written in the one way that its components allow.
pub open spec fn plain_of(path: Seq<char>) -> Seq<char> {
    path_of(is_absolute_of(path), components_of(path))
}

/// The components of a path.
pub fn components(path: &str) -> (r: Vec<String>)
    ensures
        text::views(r@) == components_of(path@),
{
    let v: Vec<char> = chars_of(path);
    let mut back: Vec<String> = Vec::new();
    let mut n: usize = v.len();
    let ghost all = components_of(v@);
    proof {
        assert(v@.take(n as int) =~= v@);
        assert(all =~= components_of(v@.take(n as int)) + text::views(back@).reverse());
    }
    while n > 0
        invariant
            n <= v@.len(),
            all == components_of(v@.take(n as int)) + text::views(back@).reverse(),
        decreases n,
    {
        let ghost p = v@.take(n as int);
        proof {
            lemma_tail_len(p);
        }
        let mut start: usize = n;
        while start > 0 && v[start - 1] != '/'
            invariant
                0 <= start <= n <= v@.len(),
                p == v@.take(n as int),
                n - start <= tail_len(p),
                tail_len(p) <= p.len(),
                forall|i: int| p.len() - tail_len(p) <= i < p.len() ==> #[trigger] p[i] != '/',
                tail_len(p) < p.len() ==> p[p.len() - tail_len(p) - 1] == '/',
            decreases start,
        {
            proof {
                assert(p[start - 1] == v@[start - 1]);
            }
            start -= 1;
        }
        proof {
            if start > 0 {
                assert(p[start - 1] == v@[start - 1]);
            }
            assert(n - start == tail_len(p));
            assert(p.skip(start as int) =~= v@.subrange(start as int, n as int));
            if start > 0 {
                assert(p.take(start - 1) =~= v@.take(start - 1));
            }
        }
        let last: String = string_of_range(&v, start, n);
        let drop: bool = start == n || (str_eq(last.as_str(), ".") && start > 0);
        let ghost prior = back@;
        let ghost lv = last@;
        let ghost rest = if start > 0 {
            components_of(v@.take(start - 1))
        } else {
            Seq::empty()
        };
        if !drop {
            back.push(last);
            proof {
                assert(text::views(back@) =~= text::views(prior).push(lv));
                assert(rest.push(lv) + text::views(prior).reverse() =~= rest + text::views(
                    back@,
                ).reverse());
            }
        }
        if start == 0 {
            n = 0;
            proof {
                assert(v@.take(0) =~= Seq::empty());
            }
        } else {
            n = start - 1;
        }
    }
    let mut out: Vec<String> = Vec::new();
    let mut i: usize = back.len();
    proof {
        assert(v@.take(0) =~= Seq::empty());
        assert(all =~= text::views(back@).reverse());
    }
    while i > 0
        invariant
            i <= back@.len(),
            all == text::views(back@).reverse(),
            text::views(out@) == all.take(back@.len() - i),
        decreases i,
    {
        let ghost prior = out@;
        out.push(back[i - 1].as_str().to_owned());
        proof {
            assert(text::views(out@) =~= text::views(prior).push(text::views(back@)[i - 1]));
            assert(all.take(back@.len() - i + 1) =~= all.take(back@.len() - i).push(
                all[back@.len() - i],
            ));
        }
        i -= 1;
    }
    proof {
        assert(all.take(back@.len() as int) =~= all);
    }
    out
}

/// A path made of the first `n` components.
pub fn path_from(absolute: bool, parts: &Vec<String>, n: usize) -> (r: String)
    requires
        n <= parts@.len(),
    ensures
        r@ == path_of(absolute, text::views(parts@).take(n as int)),
{
    let mut out: String = String::new();
    if absolute {
        out.push_str("/");
    }
    let ghost head = out@;
    let ghost pv = text::views(parts@);
    let mut body: String = String::new();
    let mut i: usize = 0;
    while i < n
        invariant
            n <= parts@.len(),
            pv == text::views(parts@),
            i <= n,
            body@ == text::join_of(pv.take(i as int), "/"@),
        decreases n - i,
    {
        if i > 0 {
            body.push_str("/");
        }
        body.push_str(parts[i].as_str());
        proof {
            let t = pv.take(i as int + 1);
            assert(t.drop_last() =~= pv.take(i as int));
            assert(t.last() == parts@[i as int]@);
            if i == 0 {
                assert(body@ =~= t[0]);
            }
        }
        i += 1;
    }
    out.push_str(body.as_str());
    proof {
        assert(head =~= (if absolute {
            "/"@
        } else {
            Seq::empty()
        }));
    }
    out
}

/// A path written in the one way that its components allow.
pub fn plain(path: &str) -> (r: String)
    ensures
        r@ == plain_of(path@),
{
    let parts: Vec<String> = components(path);
    proof {
        let pv = text::views(parts@);
        assert(pv.take(pv.len() as int) =~= pv);
    }
    path_from(is_absolute(path), &parts, parts.len())
}

// ── Laws ────────────────────────────────────────────────────────────────────

/// Whether a text can be one part of a path.
pub open spec fn is_part(s: Seq<char>) -> bool {
    s.len() > 0 && s != "."@ && s != ".."@ && forall|i: int| 0 <= i < s.len() ==> #[trigger] s[i] != '/'
}

proof fn lemma_tail_part(dir: Seq<char>, name: Seq<char>)
    requires
        forall|i: int| 0 <= i < name.len() ==> #[trigger] name[i] != '/',
        dir.len() == 0 || dir.last() == '/',
    ensures
        tail_len(dir + name) == name.len(),
    decreases name.len(),
{
    let p = dir + name;
    if name.len() == 0 {
        assert(p =~= dir);
    } else {
        let less = name.drop_last();
        assert(p.last() == name.last());
        assert(p.drop_last() =~= dir + less);
        assert forall|i: int| 0 <= i < less.len() implies #[trigger] less[i] != '/' by {
            assert(less[i] == name[i]);
        }
        lemma_tail_part(dir, less);
    }
}

/// The name of a file is what stands behind the last slash, whatever directory it is in,
/// and a slash behind it changes nothing.
pub proof fn law_file_name_is_the_last_part(dir: Seq<char>, name: Seq<char>)
    requires
        is_part(name),
    ensures
        file_name_of(name) == Some(name),
        file_name_of(dir + seq!['/'] + name) == Some(name),
        file_name_of(dir + seq!['/'] + name + seq!['/']) == Some(name),
{
    let none = Seq::<char>::empty();
    assert(none + name =~= name);
    lemma_tail_part(none, name);
    assert(name.skip(0) =~= name);
    let d = dir + seq!['/'];
    assert(d.last() == '/');
    let p = d + name;
    lemma_tail_part(d, name);
    assert(p.skip(p.len() - name.len()) =~= name);
    let q = p + seq!['/'];
    assert(q.last() == '/');
    assert(q.drop_last() =~= p);
    assert(tail_len(q) == 0);
}

/// A relative path is taken below the base, with one slash between them; an absolute
/// one is taken as it is, and so is any path below nothing.
pub proof fn law_joined_paths(base: Seq<char>, tail: Seq<char>)
    ensures
        is_absolute_of(tail) ==> join_of_paths(base, tail) == tail,
        base.len() == 0 ==> join_of_paths(base, tail) == tail,
        base.len() > 0 && !is_absolute_of(tail) ==> join_of_paths(base, tail) == (if base.last() == '/' {
            base
        } else {
            base.push('/')
        }) + tail,
        is_absolute_of(base) ==> is_absolute_of(join_of_paths(base, tail)),
{
    reveal_strlit("/");
    assert("/"@ =~= seq!['/']);
    if base.len() > 0 && base.last() != '/' {
        assert(base + "/"@ =~= base.push('/'));
    }
}

/// A part more at the end of a path is one component more, and slashes in between are
/// none.
pub proof fn law_components_of_a_path(dir: Seq<char>, name: Seq<char>)
    requires
        is_part(name),
    ensures
        components_of(name) == seq![name],
        components_of(dir + seq!['/'] + name) == components_of(dir).push(name),
        dir.len() > 0 ==> components_of(dir + seq!['/']) == components_of(dir),
{
    let none = Seq::<char>::empty();
    assert(none + name =~= name);
    lemma_tail_part(none, name);
    assert(name.skip(0) =~= name);
    assert(components_of(name) =~= seq![name]);
    let d = dir + seq!['/'];
    assert(d.last() == '/');
    let p = d + name;
    lemma_tail_part(d, name);
    assert(p.skip(p.len() - name.len()) =~= name);
    assert(p.take(p.len() - name.len() - 1) =~= dir);
    assert(tail_len(d) == 0);
    assert(d.take(d.len() - 1) =~= dir);
}

/// A suffix goes behind the name of a file, whatever directory it is in.
pub proof fn law_suffix_goes_behind_the_name(dir: Seq<char>, name: Seq<char>, suffix: Seq<char>)
    requires
        is_part(name),
    ensures
        suffixed_of(dir + seq!['/'] + name, suffix) == dir + seq!['/'] + name + suffix,
        suffixed_of(name, suffix) == name + suffix,
{
    let none = Seq::<char>::empty();
    assert(none + name =~= name);
    lemma_tail_part(none, name);
    assert(name.skip(0) =~= name);
    assert(name.take(name.len() as int) =~= name);
    let d = dir + seq!['/'];
    assert(d.last() == '/');
    let p = d + name;
    lemma_tail_part(d, name);
    assert(p.skip(p.len() - name.len()) =~= name);
    assert(p.take(p.len() as int) =~= p);
}

} // verus!
