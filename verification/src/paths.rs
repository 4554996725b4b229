//! Unix path composition as the configuration and the media folders use it.
//! Paths are held as text; a path is absolute when it starts with `/`.
use crate::text::{
    append, chars_of, has_prefix, is, lemma_text_less_irreflexive, lemma_text_less_total,
    lemma_text_less_transitive, same, split, split_on, string_of, text_less, text_less_of, texts,
};
use vstd::prelude::*;

verus! {

/// `base` with `rel` appended as `PathBuf::push` appends a relative path on
/// Unix: a separator is inserted unless `base` is empty or already ends in one.
/// An absolute `rel` replaces `base`.
pub open spec fn joined(base: Seq<char>, rel: Seq<char>) -> Seq<char> {
    if has_prefix(rel, "/"@) {
        rel
    } else if base.len() == 0 {
        rel
    } else if base.last() == '/' {
        base + rel
    } else {
        base + seq!['/'] + rel
    }
}

/// `Path::join`.
pub fn join(base: &str, rel: &str) -> (r: String)
    ensures
        r@ == joined(base@, rel@),
{
    proof {
        reveal_strlit("/");
    }
    let b = chars_of(base);
    let r = chars_of(rel);
    assert("/"@.len() == 1 && "/"@[0] == '/');
    if r.len() > 0 {
        assert(r@.take(1) =~= seq![r@[0]]);
    }
    if r.len() > 0 && r[0] == '/' {
        assert(rel@.take(1) =~= "/"@);
        assert(has_prefix(rel@, "/"@));
        return string_of(&r);
    }
    assert(!has_prefix(rel@, "/"@)) by {
        if has_prefix(rel@, "/"@) {
            assert(rel@.take(1)[0] == '/');
        }
    }
    if b.len() == 0 {
        return string_of(&r);
    }
    let mut out = b.clone();
    if b[b.len() - 1] != '/' {
        out.push('/');
    }
    append(&mut out, &r);
    string_of(&out)
}

/// A relative `path` taken from `base`; an absolute one as it is.
pub open spec fn resolved(base: Seq<char>, path: Seq<char>) -> Seq<char> {
    if has_prefix(path, "/"@) {
        path
    } else {
        joined(base, path)
    }
}

/// Resolves a path written in a file that lives in `base`.
pub fn resolve(base: &str, path: &str) -> (r: String)
    ensures
        r@ == resolved(base@, path@),
{
    join(base, path)
}


/// The path typed into a settings field: none when the field is blank, else
/// the trimmed text taken from `base` when it is relative.
pub open spec fn entered_path_of(text: Seq<char>, base: Seq<char>) -> Option<Seq<char>> {
    let t = crate::text::trim(text);
    if t.len() == 0 {
        None
    } else {
        Some(resolved(base, t))
    }
}

pub fn entered_path(text: &str, base: &str) -> (r: Option<String>)
    ensures
        crate::text::opt_text(r) == entered_path_of(text@, base@),
{
    let t = crate::text::trimmed(&chars_of(text));
    if t.len() == 0 {
        return None;
    }
    let typed = string_of(&t);
    Some(resolve(base, typed.as_str()))
}

/// One component of a Unix path, as `Path::components` yields it: the root,
/// a leading `.`, a `..`, or a name.
pub enum Part {
    Root,
    Here,
    Up,
    Name(Seq<char>),
}

/// The components named by the pieces between separators: empty pieces and
/// `.` are dropped, `..` goes up.
pub open spec fn named_parts(pieces: Seq<Seq<char>>) -> Seq<Part>
    decreases pieces.len(),
{
    if pieces.len() == 0 {
        Seq::empty()
    } else {
        let rest = named_parts(pieces.drop_last());
        let q = pieces.last();
        if q.len() == 0 || q == "."@ {
            rest
        } else if q == ".."@ {
            rest.push(Part::Up)
        } else {
            rest.push(Part::Name(q))
        }
    }
}

/// The components of a path: the root of an absolute path, or the `.` that
/// begins a relative one, then its names; `a/./b/` and `a//b` have the same
/// components as `a/b`.
pub open spec fn parts(p: Seq<char>) -> Seq<Part> {
    let pieces = split(p, '/');
    if has_prefix(p, "/"@) {
        seq![Part::Root] + named_parts(pieces)
    } else if pieces[0] == "."@ {
        seq![Part::Here] + named_parts(pieces)
    } else {
        named_parts(pieces)
    }
}

pub open spec fn rank(a: Part) -> int {
    match a {
        Part::Root => 0,
        Part::Here => 1,
        Part::Up => 2,
        Part::Name(_) => 3,
    }
}

/// The order of components: root, `.`, `..`, then names by their text.
pub open spec fn part_less(a: Part, b: Part) -> bool {
    match (a, b) {
        (Part::Name(x), Part::Name(y)) => text_less(x, y),
        _ => rank(a) < rank(b),
    }
}

pub open spec fn parts_less(a: Seq<Part>, b: Seq<Part>) -> bool
    decreases a.len(),
{
    if a.len() == 0 {
        b.len() > 0
    } else if b.len() == 0 {
        false
    } else if a[0] != b[0] {
        part_less(a[0], b[0])
    } else {
        parts_less(a.drop_first(), b.drop_first())
    }
}

/// `a` sorts before `b` as `Path`'s order has it: component by component.
pub open spec fn path_less(a: Seq<char>, b: Seq<char>) -> bool {
    parts_less(parts(a), parts(b))
}

/// `a` and `b` name the same path, as `Path`'s equality has it.
pub open spec fn same_path(a: Seq<char>, b: Seq<char>) -> bool {
    parts(a) == parts(b)
}

proof fn lemma_part_less(a: Part, b: Part, c: Part)
    ensures
        !part_less(a, a),
        a != b ==> part_less(a, b) || part_less(b, a),
        !(part_less(a, b) && part_less(b, a)),
        part_less(a, b) && part_less(b, c) ==> part_less(a, c),
{
    if let Part::Name(x) = a {
        lemma_text_less_irreflexive(x);
        if let Part::Name(y) = b {
            lemma_text_less_total(x, y);
            if let Part::Name(z) = c {
                if text_less(x, y) && text_less(y, z) {
                    lemma_text_less_transitive(x, y, z);
                }
            }
        }
    }
}

proof fn lemma_parts_less_irreflexive(a: Seq<Part>)
    ensures
        !parts_less(a, a),
    decreases a.len(),
{
    if a.len() > 0 {
        lemma_parts_less_irreflexive(a.drop_first());
    }
}

proof fn lemma_parts_less_total(a: Seq<Part>, b: Seq<Part>)
    ensures
        a != b ==> parts_less(a, b) || parts_less(b, a),
        !(parts_less(a, b) && parts_less(b, a)),
    decreases a.len(),
{
    if a.len() > 0 && b.len() > 0 {
        lemma_parts_less_total(a.drop_first(), b.drop_first());
        lemma_part_less(a[0], b[0], a[0]);
        if a[0] == b[0] && a != b {
            assert(a =~= seq![a[0]] + a.drop_first());
            assert(b =~= seq![b[0]] + b.drop_first());
        }
    } else if a.len() == 0 && b.len() == 0 {
        assert(a =~= b);
    }
}

proof fn lemma_parts_less_transitive(a: Seq<Part>, b: Seq<Part>, c: Seq<Part>)
    requires
        parts_less(a, b),
        parts_less(b, c),
    ensures
        parts_less(a, c),
    decreases a.len(),
{
    if a.len() > 0 && b.len() > 0 && c.len() > 0 {
        lemma_part_less(a[0], b[0], c[0]);
        lemma_part_less(b[0], c[0], a[0]);
        lemma_part_less(a[0], c[0], b[0]);
        if a[0] == b[0] && b[0] == c[0] {
            lemma_parts_less_transitive(a.drop_first(), b.drop_first(), c.drop_first());
        }
    }
}

/// Paths are totally ordered, and two paths are equal exactly when neither
/// sorts before the other; the order is transitive.
pub proof fn law_path_order_is_total(a: Seq<char>, b: Seq<char>, c: Seq<char>)
    ensures
        same_path(a, b) <==> !path_less(a, b) && !path_less(b, a),
        !(path_less(a, b) && path_less(b, a)),
        path_less(a, b) && path_less(b, c) ==> path_less(a, c),
{
    lemma_parts_less_total(parts(a), parts(b));
    if same_path(a, b) {
        lemma_parts_less_irreflexive(parts(a));
    }
    if path_less(a, b) && path_less(b, c) {
        lemma_parts_less_transitive(parts(a), parts(b), parts(c));
    }
}

/// A path component held by executable code.
pub enum PartText {
    Root,
    Here,
    Up,
    Name(Vec<char>),
}

pub open spec fn part_view(p: PartText) -> Part {
    match p {
        PartText::Root => Part::Root,
        PartText::Here => Part::Here,
        PartText::Up => Part::Up,
        PartText::Name(n) => Part::Name(n@),
    }
}

pub open spec fn parts_view(ps: Seq<PartText>) -> Seq<Part> {
    ps.map_values(|p: PartText| part_view(p))
}

fn parts_of(p: &Vec<char>) -> (r: Vec<PartText>)
    ensures
        parts_view(r@) == parts(p@),
{
    proof {
        reveal_strlit("/");
        reveal_strlit(".");
        reveal_strlit("..");
    }
    let pieces = split_on(p, '/');
    let ghost ps = split(p@, '/');
    proof {
        crate::text::lemma_split_nonempty(p@, '/');
    }
    let mut out: Vec<PartText> = Vec::new();
    let root = p.len() > 0 && p[0] == '/';
    proof {
        assert("/"@ =~= seq!['/']);
        if root {
            assert(p@.take(1) =~= "/"@);
        } else if has_prefix(p@, "/"@) {
            assert(p@.take(1)[0] == '/');
            assert(p@[0] == '/');
        }
    }
    assert(root == has_prefix(p@, "/"@));
    assert(pieces@[0]@ == ps[0]);
    let here = !root && is(&pieces[0], ".");
    if root {
        out.push(PartText::Root);
    } else if here {
        out.push(PartText::Here);
    }
    let ghost head = parts_view(out@);
    let mut k: usize = 0;
    while k < pieces.len()
        invariant
            k <= pieces.len(),
            texts(pieces@) == ps,
            parts_view(out@) == head + named_parts(ps.take(k as int)),
        decreases pieces.len() - k,
    {
        let ghost before = out@;
        let q = &pieces[k];
        assert(q@ == ps[k as int]);
        assert(ps.take(k + 1).drop_last() =~= ps.take(k as int));
        if q.len() == 0 || is(q, ".") {
        } else if is(q, "..") {
            out.push(PartText::Up);
            assert(parts_view(out@) =~= parts_view(before).push(Part::Up));
        } else {
            out.push(PartText::Name(q.clone()));
            assert(parts_view(out@) =~= parts_view(before).push(Part::Name(q@)));
        }
        assert(parts_view(out@) =~= head + named_parts(ps.take(k + 1)));
        k += 1;
    }
    assert(ps.take(pieces.len() as int) =~= ps);
    out
}

fn part_less_of(a: &PartText, b: &PartText) -> (r: bool)
    ensures
        r == part_less(part_view(*a), part_view(*b)),
{
    match (a, b) {
        (PartText::Name(x), PartText::Name(y)) => text_less_of(x, y),
        _ => {
            let ra: u8 = match a {
                PartText::Root => 0,
                PartText::Here => 1,
                PartText::Up => 2,
                PartText::Name(_) => 3,
            };
            let rb: u8 = match b {
                PartText::Root => 0,
                PartText::Here => 1,
                PartText::Up => 2,
                PartText::Name(_) => 3,
            };
            ra < rb
        },
    }
}

fn part_eq_of(a: &PartText, b: &PartText) -> (r: bool)
    ensures
        r == (part_view(*a) == part_view(*b)),
{
    match (a, b) {
        (PartText::Root, PartText::Root) => true,
        (PartText::Here, PartText::Here) => true,
        (PartText::Up, PartText::Up) => true,
        (PartText::Name(x), PartText::Name(y)) => same(x, y),
        _ => false,
    }
}

fn parts_less_of(a: &Vec<PartText>, b: &Vec<PartText>) -> (r: bool)
    ensures
        r == parts_less(parts_view(a@), parts_view(b@)),
{
    let ghost av = parts_view(a@);
    let ghost bv = parts_view(b@);
    let mut i: usize = 0;
    assert(av.skip(0) =~= av && bv.skip(0) =~= bv);
    while i < a.len() && i < b.len() && part_eq_of(&a[i], &b[i])
        invariant
            i <= a.len(),
            i <= b.len(),
            av == parts_view(a@),
            bv == parts_view(b@),
            parts_less(av, bv) == parts_less(av.skip(i as int), bv.skip(i as int)),
        decreases a.len() - i,
    {
        assert(av.skip(i as int)[0] == av[i as int] && bv.skip(i as int)[0] == bv[i as int]);
        assert(av.skip(i as int).drop_first() =~= av.skip(i + 1));
        assert(bv.skip(i as int).drop_first() =~= bv.skip(i + 1));
        i += 1;
    }
    if i == a.len() {
        i < b.len()
    } else if i == b.len() {
        false
    } else {
        assert(av.skip(i as int)[0] == av[i as int] && bv.skip(i as int)[0] == bv[i as int]);
        part_less_of(&a[i], &b[i])
    }
}

fn parts_eq_of(a: &Vec<PartText>, b: &Vec<PartText>) -> (r: bool)
    ensures
        r == (parts_view(a@) == parts_view(b@)),
{
    if a.len() != b.len() {
        assert(parts_view(a@).len() != parts_view(b@).len());
        return false;
    }
    let mut i: usize = 0;
    while i < a.len()
        invariant
            i <= a.len(),
            a.len() == b.len(),
            forall|k: int| 0 <= k < i ==> part_view(a@[k]) == part_view(b@[k]),
        decreases a.len() - i,
    {
        if !part_eq_of(&a[i], &b[i]) {
            assert(parts_view(a@)[i as int] != parts_view(b@)[i as int]);
            return false;
        }
        i += 1;
    }
    assert(parts_view(a@) =~= parts_view(b@));
    true
}

/// Whether two texts name the same path (`Path`'s `==`).
pub fn same_path_as(a: &str, b: &str) -> (r: bool)
    ensures
        r == same_path(a@, b@),
{
    parts_eq_of(&parts_of(&chars_of(a)), &parts_of(&chars_of(b)))
}

/// The paths found, keeping only the first spelling of each path.
pub open spec fn first_of_each_path(found: Seq<Seq<char>>) -> Seq<Seq<char>>
    decreases found.len(),
{
    if found.len() == 0 {
        Seq::empty()
    } else {
        let kept = first_of_each_path(found.drop_last());
        if exists|i: int| 0 <= i < kept.len() && same_path(#[trigger] kept[i], found.last()) {
            kept
        } else {
            kept.push(found.last())
        }
    }
}

/// Paths in `Path` order, no path twice.
pub open spec fn in_path_order(r: Seq<Seq<char>>) -> bool {
    forall|i: int, j: int| 0 <= i < j < r.len() ==> path_less(#[trigger] r[i], #[trigger] r[j])
}

/// The same texts, each once.
pub open spec fn same_texts(a: Seq<Seq<char>>, b: Seq<Seq<char>>) -> bool {
    &&& a.len() == b.len()
    &&& forall|i: int| 0 <= i < a.len() ==> b.contains(#[trigger] a[i])
    &&& forall|j: int| 0 <= j < b.len() ==> a.contains(#[trigger] b[j])
}

/// Sorts paths in `Path` order and keeps the first spelling of each path, as
/// a stable sort followed by removing repeats does.
pub fn ordered_paths(found: Vec<String>) -> (r: Vec<String>)
    ensures
        in_path_order(r@.map_values(|s: String| s@)),
        same_texts(r@.map_values(|s: String| s@), first_of_each_path(found@.map_values(|s: String| s@))),
{
    let ghost all = found@.map_values(|s: String| s@);
    let ghost n = found.len();
    let mut rest = found;
    let mut out: Vec<String> = Vec::new();
    let mut keys: Vec<Vec<PartText>> = Vec::new();
    let mut k: usize = 0;
    assert(all.take(0) =~= Seq::<Seq<char>>::empty());
    assert(all.skip(0) =~= all);
    while rest.len() > 0
        invariant
            k <= n,
            n == all.len(),
            rest.len() == n - k,
            rest@.map_values(|s: String| s@) == all.skip(k as int),
            keys.len() == out.len(),
            forall|q: int| 0 <= q < out.len() ==> #[trigger] parts_view(keys@[q]@) == parts(out@[q]@),
            in_path_order(out@.map_values(|s: String| s@)),
            same_texts(out@.map_values(|s: String| s@), first_of_each_path(all.take(k as int))),
        decreases rest.len(),
    {
        let ghost before = out@.map_values(|s: String| s@);
        let ghost kept = first_of_each_path(all.take(k as int));
        let ghost t = all.take(k + 1);
        assert(t.drop_last() =~= all.take(k as int));
        let ghost rest_before = rest@;
        let s = rest.remove(0);
        assert(rest_before.map_values(|s: String| s@)[0] == s@);
        assert(all.skip(k as int)[0] == all[k as int]);
        assert(t.last() == s@);
        assert(rest@.map_values(|s: String| s@) =~= all.skip(k + 1)) by {
            assert(rest@ =~= rest_before.subrange(1, rest_before.len() as int));
            assert(rest@.map_values(|s: String| s@) =~= rest_before.map_values(|s: String| s@).subrange(
                1,
                rest_before.len() as int,
            ));
            assert(all.skip(k as int).subrange(1, rest_before.len() as int) =~= all.skip(k + 1));
        }
        let key = parts_of(&chars_of(s.as_str()));
        let ghost x = parts(s@);
        let mut p: usize = 0;
        let mut seen = false;
        let mut stop = false;
        while p < out.len() && !stop
            invariant
                p <= out.len(),
                keys.len() == out.len(),
                parts_view(key@) == x,
                x == parts(s@),
                before == out@.map_values(|s: String| s@),
                forall|q: int| 0 <= q < out.len() ==> #[trigger] parts_view(keys@[q]@) == parts(out@[q]@),
                in_path_order(before),
                seen ==> stop,
                stop ==> p < out.len(),
                stop && seen ==> parts(before[p as int]) == x,
                stop && !seen ==> parts_less(x, parts(before[p as int])),
                forall|q: int| 0 <= q < p ==> parts_less(parts(#[trigger] before[q]), x),
            decreases out.len() - p + (if stop { 0int } else { 1int }),
        {
            assert(parts_view(keys@[p as int]@) == parts(out@[p as int]@));
            assert(before[p as int] == out@[p as int]@);
            if parts_eq_of(&keys[p], &key) {
                seen = true;
                stop = true;
            } else if parts_less_of(&key, &keys[p]) {
                stop = true;
            } else {
                proof {
                    lemma_parts_less_total(parts(before[p as int]), x);
                }
                p += 1;
            }
        }
        if seen {
            proof {
                let j = choose|j: int| 0 <= j < kept.len() && kept[j] == before[p as int];
                assert(same_path(kept[j], t.last()));
                assert(first_of_each_path(t) == kept);
            }
        } else {
            proof {
                assert forall|q: int| 0 <= q < before.len() implies parts(#[trigger] before[q]) != x by {
                    if q < p {
                        lemma_parts_less_irreflexive(x);
                    } else {
                        if q > p {
                            lemma_parts_less_transitive(x, parts(before[p as int]), parts(before[q]));
                        }
                        lemma_parts_less_irreflexive(x);
                    }
                }
                assert(!(exists|i: int| 0 <= i < kept.len() && same_path(#[trigger] kept[i], t.last()))) by {
                    if exists|i: int| 0 <= i < kept.len() && same_path(#[trigger] kept[i], t.last()) {
                        let i = choose|i: int| 0 <= i < kept.len() && same_path(#[trigger] kept[i], t.last());
                        let q = choose|q: int| 0 <= q < before.len() && before[q] == kept[i];
                    }
                }
                assert(first_of_each_path(t) == kept.push(t.last()));
            }
            let ghost keys_before = keys@;
            let ghost out_before = out@;
            out.insert(p, s);
            keys.insert(p, key);
            proof {
                let now = out@.map_values(|s: String| s@);
                assert(now =~= before.insert(p as int, t.last()));
                assert forall|q: int| 0 <= q < out.len() implies #[trigger] parts_view(keys@[q]@) == parts(
                    out@[q]@,
                ) by {
                    if q < p {
                        assert(keys@[q] == keys_before[q] && out@[q] == out_before[q]);
                    } else if q > p {
                        assert(keys@[q] == keys_before[q - 1] && out@[q] == out_before[q - 1]);
                    }
                }
                assert forall|i: int, j: int| 0 <= i < j < now.len() implies path_less(
                    #[trigger] now[i],
                    #[trigger] now[j],
                ) by {
                    if j < p {
                        assert(path_less(before[i], before[j]));
                    } else if j == p {
                        assert(now[j] == s@);
                    } else if i < p {
                        assert(now[j] == before[j - 1]);
                        assert(now[i] == before[i]);
                        if j - 1 > p {
                            assert(path_less(before[p as int], before[j - 1]));
                            lemma_parts_less_transitive(x, parts(before[p as int]), parts(before[j - 1]));
                        }
                        lemma_parts_less_transitive(parts(before[i]), x, parts(before[j - 1]));
                    } else if i == p {
                        assert(now[j] == before[j - 1]);
                        if j - 1 > p {
                            assert(path_less(before[p as int], before[j - 1]));
                            lemma_parts_less_transitive(x, parts(before[p as int]), parts(before[j - 1]));
                        }
                    } else {
                        assert(now[i] == before[i - 1] && now[j] == before[j - 1]);
                        assert(path_less(before[i - 1], before[j - 1]));
                    }
                }
                let next = kept.push(t.last());
                assert forall|i: int| 0 <= i < now.len() implies next.contains(#[trigger] now[i]) by {
                    if i == p {
                        assert(next[kept.len() as int] == now[i]);
                    } else {
                        let b = if i < p { i } else { i - 1 };
                        assert(now[i] == before[b]);
                        let j = choose|j: int| 0 <= j < kept.len() && kept[j] == before[b];
                        assert(next[j] == now[i]);
                    }
                }
                assert forall|j: int| 0 <= j < next.len() implies now.contains(#[trigger] next[j]) by {
                    if j == kept.len() {
                        assert(now[p as int] == next[j]);
                    } else {
                        let i = choose|i: int| 0 <= i < before.len() && before[i] == kept[j];
                        if i < p {
                            assert(now[i] == next[j]);
                        } else {
                            assert(now[i + 1] == next[j]);
                        }
                    }
                }
            }
        }
        k += 1;
    }
    assert(all.take(n as int) =~= all);
    out
}

} // verus!
