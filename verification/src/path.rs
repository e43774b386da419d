//! Unix paths as text.
use vstd::prelude::*;
use crate::lists::lemma_filter_step;
use crate::order::{
    no_later, text_le, text_le_antisymmetric, text_le_total, text_le_transitive,
};
use crate::text::{
    cat2, cat3, chars_of, cut_last, equal, find_char, last_index_of, lemma_find_char, part, pieces,
    reads, rfind_char, rsplit_once, split, string_of, texts,
};

verus! {

/// A path below another: an absolute one replaces what it is joined to, and a separator is put
/// between where none is there.
pub open spec fn join(base: Seq<char>, part: Seq<char>) -> Seq<char> {
    if part.len() > 0 && part[0] == '/' {
        part
    } else if base.len() == 0 || base.last() == '/' {
        base + part
    } else {
        base.push('/') + part
    }
}

/// A path below another.
pub fn joined_path(base: &str, below: &str) -> (r: String)
    ensures
        r@ == join(base@, below@),
{
    let b = chars_of(base);
    let p = chars_of(below);
    if p.len() > 0 && p[0] == '/' {
        return String::from_str(below);
    }
    let mut out = String::from_str(base);
    if b.len() > 0 && b[b.len() - 1] != '/' {
        out.push('/');
    }
    out.append(below);
    out
}

/// A part of a path that names something: not empty and not `.`.
pub open spec fn names_something(part: Seq<char>) -> bool {
    part.len() > 0 && part != "."@
}

/// The parts of a path between its separators, without the empty ones and `.`.
pub open spec fn path_parts(path: Seq<char>) -> Seq<Seq<char>> {
    split(path, '/').filter(|p: Seq<char>| names_something(p))
}

/// The parts of a path.
pub fn parts_of(path: &str) -> (r: Vec<String>)
    ensures
        r.deep_view() == path_parts(path@),
{
    let chars = chars_of(path);
    let all = pieces(&chars, '/');
    let ghost every = texts(all@);
    let ghost p = |part: Seq<char>| names_something(part);
    let mut out: Vec<String> = Vec::new();
    let mut i: usize = 0;
    proof {
        reveal(Seq::filter);
    }
    assert(out.deep_view() =~= every.take(0).filter(p));
    while i < all.len()
        invariant
            i <= all.len(),
            every == texts(all@),
            every == split(path@, '/'),
            p == (|part: Seq<char>| names_something(part)),
            out.deep_view() == every.take(i as int).filter(p),
        decreases all.len() - i,
    {
        proof {
            lemma_filter_step(every, i as int, p);
            assert(every[i as int] == all@[i as int]@);
        }
        let ghost before = out.deep_view();
        if all[i].len() > 0 && !reads(all[i], ".") {
            out.push(string_of(all[i]));
            assert(out.deep_view() =~= before.push(every[i as int]));
        }
        i = i + 1;
    }
    assert(every.take(i as int) =~= every);
    out
}

/// The name that a path ends in; none where it ends in `..` or names nothing.
pub open spec fn file_name(path: Seq<char>) -> Option<Seq<char>> {
    let parts = path_parts(path);
    if parts.len() == 0 || parts.last() == ".."@ {
        None
    } else {
        Some(parts.last())
    }
}

/// The name that a path ends in.
pub fn name_of_path(path: &str) -> (r: Option<String>)
    ensures
        r.deep_view() == file_name(path@),
{
    let parts = parts_of(path);
    let n: usize = parts.len();
    if n == 0 {
        return None;
    }
    assert(parts.deep_view()[n - 1] == parts@[n - 1]@);
    if equal(&parts[n - 1], "..") {
        None
    } else {
        Some(parts[n - 1].clone())
    }
}

/// A file name without its extension: what stands before the last point, unless that is the first
/// character or there is none.
pub open spec fn stem(name: Seq<char>) -> Seq<char> {
    match rsplit_once(name, '.') {
        Some((before, _)) => if before.len() > 0 {
            before
        } else {
            name
        },
        None => name,
    }
}

/// The extension of a file name: what stands after the last point, unless that is the first
/// character or there is none.
pub open spec fn extension(name: Seq<char>) -> Option<Seq<char>> {
    match rsplit_once(name, '.') {
        Some((before, after)) => if before.len() > 0 {
            Some(after)
        } else {
            None
        },
        None => None,
    }
}

/// A file name without its extension.
pub fn stem_of(name: &str) -> (r: String)
    ensures
        r@ == stem(name@),
{
    let chars = chars_of(name);
    match cut_last(&chars, '.') {
        Some((before, _)) => if before.len() > 0 {
            string_of(before)
        } else {
            String::from_str(name)
        },
        None => String::from_str(name),
    }
}

/// The extension of a file name.
pub fn extension_of(name: &str) -> (r: Option<String>)
    ensures
        r.deep_view() == extension(name@),
{
    let chars = chars_of(name);
    match cut_last(&chars, '.') {
        Some((before, after)) => if before.len() > 0 {
            Some(string_of(after))
        } else {
            None
        },
        None => None,
    }
}

/// A path starts at the root.
pub open spec fn is_rooted(path: Seq<char>) -> bool {
    path.len() > 0 && path[0] == '/'
}

/// A path starts with the current directory, written out.
pub open spec fn starts_here(path: Seq<char>) -> bool {
    path.len() > 0 && path[0] == '.' && (path.len() == 1 || path[1] == '/')
}

/// Two texts are the same path: they lead through the same parts from the same start.
pub open spec fn same_path(a: Seq<char>, b: Seq<char>) -> bool {
    is_rooted(a) == is_rooted(b) && starts_here(a) == starts_here(b) && path_parts(a) == path_parts(b)
}

fn lead(path: &[char]) -> (r: (bool, bool))
    ensures
        r.0 == is_rooted(path@),
        r.1 == starts_here(path@),
{
    (
        path.len() > 0 && path[0] == '/',
        path.len() > 0 && path[0] == '.' && (path.len() == 1 || path[1] == '/'),
    )
}

/// Two lists of strings hold the same texts.
pub fn same_strings(a: &Vec<String>, b: &Vec<String>) -> (r: bool)
    ensures
        r == (a.deep_view() == b.deep_view()),
{
    if a.len() != b.len() {
        assert(a.deep_view().len() != b.deep_view().len());
        return false;
    }
    let mut i: usize = 0;
    while i < a.len()
        invariant
            i <= a.len(),
            a.len() == b.len(),
            forall|j: int| 0 <= j < i ==> a.deep_view()[j] == #[trigger] b.deep_view()[j],
        decreases a.len() - i,
    {
        assert(a.deep_view()[i as int] == a@[i as int]@);
        assert(b.deep_view()[i as int] == b@[i as int]@);
        if !equal(&a[i], &b[i]) {
            return false;
        }
        i = i + 1;
    }
    assert(a.deep_view() =~= b.deep_view());
    true
}

/// Whether two texts are the same path.
pub fn is_same_path(a: &str, b: &str) -> (r: bool)
    ensures
        r == same_path(a@, b@),
{
    let (a_root, a_here) = lead(&chars_of(a));
    let (b_root, b_here) = lead(&chars_of(b));
    a_root == b_root && a_here == b_here && same_strings(&parts_of(a), &parts_of(b))
}

/// A path leads through another: it has the same start, and its first parts are those of the other.
pub open spec fn is_within(path: Seq<char>, base: Seq<char>) -> bool {
    is_rooted(path) == is_rooted(base) && starts_here(path) == starts_here(base) && path_parts(
        base,
    ).is_prefix_of(path_parts(path))
}

/// Whether a path leads through another.
pub fn leads_through(path: &str, base: &str) -> (r: bool)
    ensures
        r == is_within(path@, base@),
{
    let (p_root, p_here) = lead(&chars_of(path));
    let (b_root, b_here) = lead(&chars_of(base));
    if p_root != b_root || p_here != b_here {
        return false;
    }
    let parts = parts_of(path);
    let first = parts_of(base);
    if first.len() > parts.len() {
        return false;
    }
    let mut i: usize = 0;
    while i < first.len()
        invariant
            i <= first.len() <= parts.len(),
            first.deep_view() == path_parts(base@),
            parts.deep_view() == path_parts(path@),
            forall|j: int|
                0 <= j < i ==> first.deep_view()[j] == #[trigger] parts.deep_view()[j],
        decreases first.len() - i,
    {
        assert(first.deep_view()[i as int] == first@[i as int]@);
        assert(parts.deep_view()[i as int] == parts@[i as int]@);
        if !equal(&first[i], &parts[i]) {
            assert(path_parts(path@).subrange(0, path_parts(base@).len() as int)[i as int]
                == parts@[i as int]@);
            return false;
        }
        i = i + 1;
    }
    assert(first.deep_view() =~= parts.deep_view().subrange(0, first.deep_view().len() as int));
    true
}

proof fn lemma_split_at(a: Seq<char>, b: Seq<char>)
    ensures
        split(a.push('/') + b, '/') == split(a, '/') + split(b, '/'),
    decreases a.len(),
{
    let all = a.push('/') + b;
    let i = find_char(a, '/');
    lemma_find_char(a, '/');
    lemma_find_char(all, '/');
    let k = find_char(all, '/');
    assert(all[a.len() as int] == '/');
    assert(k == i) by {
        if k < i {
            assert(a[k] == all[k]);
        } else if k > i {
            if i < a.len() {
                assert(all[i] == a[i]);
            }
        }
    }
    if i < a.len() {
        lemma_split_at(a.skip(i + 1), b);
        assert(all.take(i) =~= a.take(i));
        assert(all.skip(i + 1) =~= a.skip(i + 1).push('/') + b);
        assert(split(all, '/') =~= split(a, '/') + split(b, '/'));
    } else {
        assert(all.take(i) =~= a);
        assert(all.skip(i + 1) =~= b);
    }
}

proof fn lemma_parts_at(a: Seq<char>, b: Seq<char>)
    ensures
        path_parts(a.push('/') + b) == path_parts(a) + path_parts(b),
{
    lemma_split_at(a, b);
    Seq::filter_distributes_over_add(
        split(a, '/'),
        split(b, '/'),
        |p: Seq<char>| names_something(p),
    );
}

/// What is joined to a path is its last part, and changes nothing before it.
pub proof fn joining_adds_a_part(base: Seq<char>, name: Seq<char>)
    requires
        base.len() > 0,
        names_something(name),
        !name.contains('/'),
    ensures
        path_parts(join(base, name)) == path_parts(base).push(name),
        is_rooted(join(base, name)) == is_rooted(base),
        starts_here(join(base, name)) == starts_here(base),
{
    let p = |p: Seq<char>| names_something(p);
    assert(name[0] != '/');
    lemma_find_char(name, '/');
    assert(find_char(name, '/') == name.len());
    assert(split(name, '/') =~= seq![name]);
    assert(path_parts(name) =~= seq![name]) by {
        reveal(Seq::filter);
        lemma_filter_step(seq![name], 0, p);
        assert(seq![name].take(0).filter(p) =~= Seq::empty());
        assert(seq![name].take(1) =~= seq![name]);
    }
    let empty = Seq::<char>::empty();
    lemma_find_char(empty, '/');
    assert(split(empty, '/') =~= seq![empty]);
    assert(path_parts(empty) =~= Seq::empty()) by {
        reveal(Seq::filter);
        lemma_filter_step(seq![empty], 0, p);
        assert(seq![empty].take(0).filter(p) =~= Seq::empty());
        assert(seq![empty].take(1) =~= seq![empty]);
    }
    if base.last() == '/' {
        let b = base.drop_last();
        assert(base =~= b.push('/') + empty);
        assert(base + name =~= b.push('/') + name);
        lemma_parts_at(b, empty);
        lemma_parts_at(b, name);
        assert(path_parts(b) + seq![name] =~= path_parts(b).push(name));
        assert(path_parts(b) + Seq::<Seq<char>>::empty() =~= path_parts(b));
    } else {
        lemma_parts_at(base, name);
        assert(path_parts(base) + seq![name] =~= path_parts(base).push(name));
    }
}

// ---------------------------------------------------------------------------
// The order of paths
// ---------------------------------------------------------------------------

/// A part of a path as something that can be ordered: `..` comes before every name.
pub open spec fn component(part: Seq<char>) -> (u8, Seq<char>) {
    if part == ".."@ {
        (3u8, part)
    } else {
        (4u8, part)
    }
}

/// What a path leads through, its start first.
pub open spec fn components(path: Seq<char>) -> Seq<(u8, Seq<char>)> {
    (if is_rooted(path) {
        seq![(1u8, ""@)]
    } else if starts_here(path) {
        seq![(2u8, ""@)]
    } else {
        Seq::empty()
    }) + path_parts(path).map_values(|p: Seq<char>| component(p))
}

/// One component comes no later than another.
pub open spec fn component_le(a: (u8, Seq<char>), b: (u8, Seq<char>)) -> bool {
    a.0 < b.0 || (a.0 == b.0 && text_le(a.1, b.1))
}

/// One list of components comes no later than another: the first difference decides, and a list
/// comes before what continues it.
pub open spec fn components_le(a: Seq<(u8, Seq<char>)>, b: Seq<(u8, Seq<char>)>) -> bool
    decreases a.len(),
{
    if a.len() == 0 {
        true
    } else if b.len() == 0 {
        false
    } else if a[0] == b[0] {
        components_le(a.skip(1), b.skip(1))
    } else {
        component_le(a[0], b[0])
    }
}

/// One path comes no later than another.
pub open spec fn path_le(a: Seq<char>, b: Seq<char>) -> bool {
    components_le(components(a), components(b))
}

fn components_of(path: &str) -> (r: Vec<(u8, String)>)
    ensures
        r.deep_view() == components(path@),
{
    let mut out: Vec<(u8, String)> = Vec::new();
    let (rooted, here) = lead(&chars_of(path));
    if rooted {
        out.push((1u8, String::from_str("")));
    } else if here {
        out.push((2u8, String::from_str("")));
    }
    let ghost start = out.deep_view();
    assert(start + Seq::<(u8, Seq<char>)>::empty() =~= start);
    let parts = parts_of(path);
    let ghost every = parts.deep_view();
    let ghost f = |p: Seq<char>| component(p);
    let mut i: usize = 0;
    assert(every.take(0).map_values(f) =~= Seq::empty());
    while i < parts.len()
        invariant
            i <= parts.len(),
            every == parts.deep_view(),
            f == (|p: Seq<char>| component(p)),
            out.deep_view() == start + every.take(i as int).map_values(f),
        decreases parts.len() - i,
    {
        let ghost before = out.deep_view();
        assert(every[i as int] == parts@[i as int]@);
        let kind: u8 = if equal(&parts[i], "..") {
            3
        } else {
            4
        };
        out.push((kind, parts[i].clone()));
        assert(out.deep_view() =~= before.push(f(every[i as int])));
        assert(every.take(i + 1).map_values(f) =~= every.take(i as int).map_values(f).push(
            f(every[i as int]),
        ));
        i = i + 1;
    }
    assert(every.take(i as int) =~= every);
    assert(out.deep_view() =~= components(path@));
    out
}

/// Whether one path comes no later than another.
pub fn no_later_path(a: &str, b: &str) -> (r: bool)
    ensures
        r == path_le(a@, b@),
{
    let x = components_of(a);
    let y = components_of(b);
    let ghost s = x.deep_view();
    let ghost t = y.deep_view();
    let mut i: usize = 0;
    assert(s.skip(0) =~= s);
    assert(t.skip(0) =~= t);
    while i < x.len() && i < y.len()
        invariant
            i <= x.len(),
            i <= y.len(),
            s == x.deep_view(),
            t == y.deep_view(),
            s == components(a@),
            t == components(b@),
            components_le(s, t) == components_le(s.skip(i as int), t.skip(i as int)),
        decreases x.len() - i,
    {
        let (kind, text) = (x[i].0, &x[i].1);
        let (other_kind, other_text) = (y[i].0, &y[i].1);
        assert(s.skip(i as int)[0] == (kind, text@));
        assert(t.skip(i as int)[0] == (other_kind, other_text@));
        assert(s.skip(i as int).skip(1) =~= s.skip(i + 1));
        assert(t.skip(i as int).skip(1) =~= t.skip(i + 1));
        if kind != other_kind {
            return kind < other_kind;
        }
        if !equal(text, other_text) {
            return no_later(text, other_text);
        }
        i = i + 1;
    }
    i == x.len()
}

proof fn lemma_components_total(a: Seq<(u8, Seq<char>)>, b: Seq<(u8, Seq<char>)>)
    ensures
        components_le(a, b) || components_le(b, a),
    decreases a.len(),
{
    if a.len() > 0 && b.len() > 0 {
        if a[0] == b[0] {
            lemma_components_total(a.skip(1), b.skip(1));
        } else {
            text_le_total(a[0].1, b[0].1);
        }
    }
}

proof fn lemma_components_transitive(
    a: Seq<(u8, Seq<char>)>,
    b: Seq<(u8, Seq<char>)>,
    c: Seq<(u8, Seq<char>)>,
)
    requires
        components_le(a, b),
        components_le(b, c),
    ensures
        components_le(a, c),
    decreases a.len(),
{
    if a.len() > 0 {
        if a[0] == b[0] && b[0] == c[0] {
            lemma_components_transitive(a.skip(1), b.skip(1), c.skip(1));
        } else if a[0] != b[0] && b[0] != c[0] {
            if a[0].0 == b[0].0 && b[0].0 == c[0].0 {
                text_le_transitive(a[0].1, b[0].1, c[0].1);
                if a[0] == c[0] {
                    text_le_antisymmetric(a[0].1, b[0].1);
                }
            }
        }
    }
}

/// Of two paths one comes no later than the other.
pub proof fn path_le_total(a: Seq<char>, b: Seq<char>)
    ensures
        path_le(a, b) || path_le(b, a),
{
    lemma_components_total(components(a), components(b));
}

/// A path that comes no later than one that comes no later than a third comes no later than the
/// third.
pub proof fn path_le_transitive(a: Seq<char>, b: Seq<char>, c: Seq<char>)
    requires
        path_le(a, b),
        path_le(b, c),
    ensures
        path_le(a, c),
{
    lemma_components_transitive(components(a), components(b), components(c));
}

// ---------------------------------------------------------------------------
// Another extension
// ---------------------------------------------------------------------------

/// A path without the separators and the `.` parts that follow its last name.
pub open spec fn trunk(path: Seq<char>) -> Seq<char>
    decreases path.len(),
{
    if path.len() > 1 && (path.last() == '/' || (path.last() == '.' && path[path.len() - 2] == '/')) {
        trunk(path.drop_last())
    } else {
        path
    }
}

/// Where the last name of a path without trailing separators starts.
pub open spec fn name_start(path: Seq<char>) -> int {
    match rfind_char(path, '/') {
        Some(i) => i + 1,
        None => 0,
    }
}

/// A path with another extension on its last name, or with none where that is empty; one that ends
/// in no name is left alone.
pub open spec fn with_extension(path: Seq<char>, ext: Seq<char>) -> Seq<char> {
    let t = trunk(path);
    let name = t.skip(name_start(t));
    if name.len() == 0 || name == "."@ || name == ".."@ {
        path
    } else {
        t.take(name_start(t)) + stem(name) + (if ext.len() == 0 {
            Seq::empty()
        } else {
            "."@ + ext
        })
    }
}

/// A path with another extension on its last name.
pub fn extended(path: &str, ext: &str) -> (r: String)
    ensures
        r@ == with_extension(path@, ext@),
{
    let chars = chars_of(path);
    let all: usize = chars.len();
    assert(chars@.take(all as int) =~= path@);
    let n: usize = trunk_len(&chars, all);
    let t = part(&chars, 0, n);
    assert(t@ =~= trunk(path@));
    let start: usize = match last_index_of(t, '/') {
        Some(i) => i + 1,
        None => 0,
    };
    let name = part(t, start, n);
    assert(name@ =~= t@.skip(start as int));
    if name.len() == 0 || reads(name, ".") || reads(name, "..") {
        return String::from_str(path);
    }
    let before = part(t, 0, start);
    assert(before@ =~= t@.take(start as int));
    let bare = cat2(&string_of(before), &stem_of(&string_of(name)));
    if chars_of(ext).len() == 0 {
        assert(bare@ + Seq::<char>::empty() =~= bare@);
        bare
    } else {
        cat3(&bare, ".", ext)
    }
}

// ---------------------------------------------------------------------------
// The directory above
// ---------------------------------------------------------------------------

/// The directory that holds what a path names; none for the root and for the empty path.
pub open spec fn parent(path: Seq<char>) -> Option<Seq<char>> {
    let t = trunk(path);
    if t.skip(name_start(t)).len() == 0 {
        None
    } else {
        Some(trunk(t.take(name_start(t))))
    }
}

fn trunk_len(chars: &[char], from: usize) -> (r: usize)
    requires
        from <= chars@.len(),
    ensures
        r <= from,
        chars@.take(r as int) == trunk(chars@.take(from as int)),
{
    let mut n: usize = from;
    while n > 1 && (chars[n - 1] == '/' || (chars[n - 1] == '.' && chars[n - 2] == '/'))
        invariant
            n <= from <= chars@.len(),
            trunk(chars@.take(n as int)) == trunk(chars@.take(from as int)),
        decreases n,
    {
        assert(chars@.take(n as int).drop_last() =~= chars@.take(n - 1));
        n = n - 1;
    }
    n
}

/// The directory that holds what a path names.
pub fn parent_of(path: &str) -> (r: Option<String>)
    ensures
        r.deep_view() == parent(path@),
{
    let chars = chars_of(path);
    let all: usize = chars.len();
    assert(chars@.take(all as int) =~= path@);
    let n: usize = trunk_len(&chars, all);
    let t = part(&chars, 0, n);
    assert(t@ =~= trunk(path@));
    let start: usize = match last_index_of(t, '/') {
        Some(i) => i + 1,
        None => 0,
    };
    if start == n {
        return None;
    }
    let k: usize = trunk_len(t, start);
    let up = part(t, 0, k);
    assert(up@ =~= t@.take(k as int));
    Some(string_of(up))
}

// ---------------------------------------------------------------------------
// Laws
// ---------------------------------------------------------------------------

proof fn lemma_parts_of_nothing()
    ensures
        path_parts(Seq::<char>::empty()) == Seq::<Seq<char>>::empty(),
        path_parts("."@) == Seq::<Seq<char>>::empty(),
{
    let p = |p: Seq<char>| names_something(p);
    let empty = Seq::<char>::empty();
    lemma_find_char(empty, '/');
    assert(split(empty, '/') =~= seq![empty]);
    reveal_strlit(".");
    let dot = "."@;
    lemma_find_char(dot, '/');
    assert(find_char(dot, '/') == 1);
    assert(split(dot, '/') =~= seq![dot]);
    reveal(Seq::filter);
    lemma_filter_step(seq![empty], 0, p);
    lemma_filter_step(seq![dot], 0, p);
    assert(seq![empty].take(0).filter(p) =~= Seq::empty());
    assert(seq![empty].take(1) =~= seq![empty]);
    assert(seq![dot].take(0).filter(p) =~= Seq::empty());
    assert(seq![dot].take(1) =~= seq![dot]);
}

proof fn lemma_trunk(path: Seq<char>)
    ensures
        path_parts(trunk(path)) == path_parts(path),
        trunk(path).len() > 1 ==> trunk(path).last() != '/' && !(trunk(path).last() == '.' && trunk(
            path,
        )[trunk(path).len() - 2] == '/'),
        path.len() > 0 ==> trunk(path).len() > 0 && trunk(path)[0] == path[0],
    decreases path.len(),
{
    if path.len() > 1 && (path.last() == '/' || (path.last() == '.' && path[path.len() - 2]
        == '/')) {
        lemma_trunk(path.drop_last());
        lemma_parts_of_nothing();
        let none = Seq::<Seq<char>>::empty();
        let empty = Seq::<char>::empty();
        if path.last() == '/' {
            let d = path.drop_last();
            assert(path =~= d.push('/') + empty);
            lemma_parts_at(d, empty);
            assert(path_parts(d) + none =~= path_parts(d));
        } else {
            let d = path.drop_last().drop_last();
            reveal_strlit(".");
            assert(path =~= d.push('/') + "."@);
            assert(path.drop_last() =~= d.push('/') + empty);
            lemma_parts_at(d, "."@);
            lemma_parts_at(d, empty);
            assert(path_parts(d) + none =~= path_parts(d));
        }
    }
}

proof fn lemma_last_name(t: Seq<char>)
    ensures
        0 <= name_start(t) <= t.len(),
        !t.skip(name_start(t)).contains('/'),
        name_start(t) > 0 ==> t[name_start(t) - 1] == '/',
{
    lemma_rfind_char(t, '/');
    let name = t.skip(name_start(t));
    if name.contains('/') {
        let k = choose|k: int| 0 <= k < name.len() && name[k] == '/';
        assert(t[name_start(t) + k] == '/');
    }
}

proof fn lemma_rfind_char(s: Seq<char>, c: char)
    ensures
        match rfind_char(s, c) {
            Some(i) => 0 <= i < s.len() && s[i] == c && forall|j: int|
                i < j < s.len() ==> s[j] != c,
            None => forall|j: int| 0 <= j < s.len() ==> s[j] != c,
        },
    decreases s.len(),
{
    if s.len() > 0 && s.last() != c {
        lemma_rfind_char(s.drop_last(), c);
        assert forall|j: int| 0 <= j < s.len() - 1 implies s[j] == s.drop_last()[j] by {}
    }
}

proof fn lemma_named(prefix: Seq<char>, name: Seq<char>)
    requires
        prefix.len() > 0 ==> prefix.last() == '/',
        !name.contains('/'),
        names_something(name),
    ensures
        path_parts(prefix + name).len() > 0,
        path_parts(prefix + name).last() == name,
{
    let p = |p: Seq<char>| names_something(p);
    lemma_find_char(name, '/');
    assert(find_char(name, '/') == name.len());
    assert(split(name, '/') =~= seq![name]);
    assert(path_parts(name) =~= seq![name]) by {
        reveal(Seq::filter);
        lemma_filter_step(seq![name], 0, p);
        assert(seq![name].take(0).filter(p) =~= Seq::empty());
        assert(seq![name].take(1) =~= seq![name]);
    }
    if prefix.len() == 0 {
        assert(prefix + name =~= name);
    } else {
        let d = prefix.drop_last();
        assert(prefix + name =~= d.push('/') + name);
        lemma_parts_at(d, name);
    }
}

proof fn lemma_trunk_name(path: Seq<char>)
    requires
        file_name(path) is Some,
    ensures
        ({
            let t = trunk(path);
            let name = t.skip(name_start(t));
            name == file_name(path)->0 && name.len() > 0 && name != "."@ && name != ".."@
        }),
{
    let t = trunk(path);
    let start = name_start(t);
    let name = t.skip(start);
    lemma_trunk(path);
    lemma_last_name(t);
    lemma_parts_of_nothing();
    reveal_strlit(".");
    reveal_strlit("..");
    assert(t =~= t.take(start) + name);
    if name.len() == 0 {
        if t.len() == 0 {
            assert(t =~= Seq::empty());
        } else {
            assert(t.last() == '/');
            let empty = Seq::<char>::empty();
            assert(t =~= empty.push('/') + empty);
            lemma_parts_at(empty, empty);
            assert(path_parts(t) =~= Seq::empty());
        }
    } else if name == "."@ {
        if start > 0 {
            assert(t.last() == '.');
        } else {
            assert(t =~= "."@);
        }
    } else {
        assert(t.take(start).len() > 0 ==> t.take(start).last() == '/');
        lemma_named(t.take(start), name);
    }
}

/// Another extension changes the extension of a file and nothing else of its name.
pub proof fn another_extension_keeps_the_stem(path: Seq<char>, ext: Seq<char>)
    requires
        file_name(path) is Some,
        ext.len() > 0,
        !ext.contains('/'),
    ensures
        file_name(with_extension(path, ext)) == Some(stem(file_name(path)->0) + "."@ + ext),
{
    lemma_trunk_name(path);
    let t = trunk(path);
    let start = name_start(t);
    let name = t.skip(start);
    lemma_last_name(t);
    lemma_rfind_char(name, '.');
    let s = stem(name);
    reveal_strlit(".");
    reveal_strlit("..");
    assert(s.len() > 0);
    let new = s + "."@ + ext;
    assert(!new.contains('/')) by {
        if new.contains('/') {
            let k = choose|k: int| 0 <= k < new.len() && new[k] == '/';
            if k < s.len() {
                assert(name[k] == '/');
            } else if k > s.len() {
                assert(ext[k - s.len() - 1] == '/');
            }
        }
    }
    assert(new.len() >= 3);
    let prefix = t.take(start);
    assert(with_extension(path, ext) =~= prefix + new);
    lemma_named(prefix, new);
}

/// Another extension leaves a file in the directory that it is in.
pub proof fn another_extension_keeps_the_directory(path: Seq<char>, ext: Seq<char>)
    requires
        file_name(path) is Some,
        ext.len() > 0,
        !ext.contains('/'),
    ensures
        parent(with_extension(path, ext)) == parent(path),
{
    lemma_trunk_name(path);
    let t = trunk(path);
    let start = name_start(t);
    let name = t.skip(start);
    lemma_last_name(t);
    lemma_rfind_char(t, '/');
    lemma_rfind_char(name, '.');
    reveal_strlit(".");
    reveal_strlit("..");
    let s = stem(name);
    let prefix = t.take(start);
    let new = s + "."@ + ext;
    let all = with_extension(path, ext);
    assert(s.len() > 0);
    assert(all =~= prefix + new);
    assert forall|k: int| start <= k < all.len() implies all[k] != '/' by {
        let j = k - start;
        if j < s.len() {
            assert(name[j] == all[k]);
        } else if j > s.len() {
            assert(ext[j - s.len() - 1] == all[k]);
        }
    }
    assert(trunk(all) == all);
    lemma_rfind_char(all, '/');
    if start > 0 {
        assert(all[start - 1] == t[start - 1]);
    }
    assert(name_start(all) == start);
    assert(all.take(start) =~= prefix);
}

/// A file with another extension has that extension.
pub proof fn another_extension_is_had(name: Seq<char>, ext: Seq<char>)
    requires
        name.len() > 0,
        !ext.contains('.'),
    ensures
        extension(name + "."@ + ext) == Some(ext),
{
    reveal_strlit(".");
    let all = name + "."@ + ext;
    let i = name.len() as int;
    lemma_rfind_char(all, '.');
    assert(all[i] == '.');
    let k = rfind_char(all, '.')->0;
    if k > i {
        assert(all[k] == ext[k - i - 1]);
        assert(ext.contains('.'));
    }
    assert(all.skip(i + 1) =~= ext);
    assert(all.take(i) =~= name);
}

/// A path is the same as itself.
pub proof fn a_path_is_itself(path: Seq<char>)
    ensures
        same_path(path, path),
{
}

/// A name is put below a directory with one separator between them; a name that starts at the root stands
/// for itself.
pub proof fn a_name_goes_below_its_directory(base: Seq<char>, name: Seq<char>)
    requires
        name.len() > 0,
    ensures
        name[0] == '/' ==> join(base, name) == name,
        name[0] != '/' && base.len() > 0 && base.last() != '/' ==> join(base, name) == base + seq!['/']
            + name,
        name[0] != '/' && base.len() > 0 && base.last() == '/' ==> join(base, name) == base + name,
{
    assert(base.push('/') + name =~= base + seq!['/'] + name);
}

/// The extension of a name is what follows its last point, and the stem what precedes it, unless the point
/// is the first character; a name without one is all stem.
pub proof fn a_name_is_its_stem_and_extension(first: Seq<char>, ext: Seq<char>, plain: Seq<char>)
    requires
        first.len() > 0,
        !ext.contains('.'),
        !plain.contains('.'),
    ensures
        extension(first.push('.') + ext) == Some(ext),
        stem(first.push('.') + ext) == first,
        extension(plain) is None,
        stem(plain) == plain,
        extension(seq!['.'] + plain) is None,
        stem(seq!['.'] + plain) == seq!['.'] + plain,
{
    let s = first.push('.') + ext;
    crate::text::the_last_one_is_found(s, '.');
    crate::text::the_last_one_is_found(plain, '.');
    let hidden = seq!['.'] + plain;
    crate::text::the_last_one_is_found(hidden, '.');
    let at = first.len() as int;
    assert(s[at] == '.');
    match crate::text::rfind_char(s, '.') {
        Some(i) => {
            if i > at {
                assert(s[i] == ext[i - at - 1]);
            }
            assert(s.take(at) =~= first);
            assert(s.skip(at + 1) =~= ext);
        },
        None => {
            assert(s.contains('.'));
        },
    }
    match crate::text::rfind_char(plain, '.') {
        Some(i) => {
            assert(plain.contains(plain[i]));
        },
        None => {},
    }
    assert(hidden[0] == '.');
    match crate::text::rfind_char(hidden, '.') {
        Some(i) => {
            if i > 0 {
                assert(hidden[i] == plain[i - 1]);
            }
            assert(hidden.take(0).len() == 0);
        },
        None => {
            assert(hidden.contains('.'));
        },
    }
}

/// A name that is put below a directory leads through it, and the directory does not lead through the name.
pub proof fn what_is_below_leads_through_what_is_above(base: Seq<char>, name: Seq<char>)
    requires
        base.len() > 0,
        names_something(name),
        !name.contains('/'),
    ensures
        is_within(join(base, name), base),
        !is_within(base, join(base, name)),
{
    joining_adds_a_part(base, name);
    let below = path_parts(base).push(name);
    assert(below.subrange(0, path_parts(base).len() as int) =~= path_parts(base));
}

/// A path leads through itself. One from the root never leads through one that is not, nor the other way
/// round, and none through a longer one.
pub proof fn paths_lead_through_no_other_start(path: Seq<char>, base: Seq<char>)
    ensures
        is_within(path, path),
        is_within(path, base) ==> path_parts(base).is_prefix_of(path_parts(path)),
        path.len() > 0 && base.len() > 0 && path[0] == '/' && base[0] != '/' ==> !is_within(path, base),
        path.len() > 0 && base.len() > 0 && path[0] != '/' && base[0] == '/' ==> !is_within(path, base),
        path.len() > 1 && path[0] == '.' && path[1] == '/' && base.len() > 0 && base[0] != '.'
            ==> !is_within(path, base),
        path_parts(path).len() < path_parts(base).len() ==> !is_within(path, base),
        starts_here(seq!['.']) && !starts_here(Seq::empty()) && !is_rooted(Seq::empty()),
{
}

/// The parent of a directory comes before every name in it, and names come in the order of texts.
pub proof fn parents_come_before_names(a: Seq<char>, b: Seq<char>)
    ensures
        a != ".."@ ==> component_le(component(".."@), component(a)) && !component_le(
            component(a),
            component(".."@),
        ),
        a != ".."@ && b != ".."@ ==> (component_le(component(a), component(b)) <==> text_le(a, b)),
{
}

} // verus!
