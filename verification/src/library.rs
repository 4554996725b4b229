//! Media kinds and the per-lock selection of what to show.
use crate::procedural::item_of;
use crate::paths::{join, joined, same_path};
use crate::text::{chars_of, is, opt_text};
use vstd::prelude::*;

verus! {

#[derive(Debug, Clone, Copy, PartialEq, Eq, Structural)]
pub enum Kind {
    Image,
    Video,
    Procedural,
}

/// What `Path::extension` returns for a path: the part of its file name after
/// the last dot, when the name has one that does not begin it.
pub uninterp spec fn path_extension(path: Seq<char>) -> Option<Seq<char>>;

/// The extension of a path (`std::path::Path::extension`), as text.
#[verifier::external_body]
fn extension(path: &str) -> (r: Option<String>)
    ensures
        opt_text(r) == path_extension(path@),
{
    std::path::Path::new(path).extension().and_then(|e| e.to_str()).map(|e| e.to_owned())
}

/// ASCII letters in lower case, other characters unchanged.
pub open spec fn ascii_lower(s: Seq<char>) -> Seq<char> {
    s.map_values(|c: char| if 'A' <= c <= 'Z' { ((c as u32) + 32) as char } else { c })
}

pub open spec fn is_image_extension(e: Seq<char>) -> bool {
    e == "png"@ || e == "jpg"@ || e == "jpeg"@ || e == "webp"@ || e == "avif"@ || e == "bmp"@
        || e == "svg"@
}

pub open spec fn is_video_extension(e: Seq<char>) -> bool {
    e == "mp4"@ || e == "mkv"@ || e == "webm"@ || e == "mov"@
}

/// The kind of file an extension marks, compared without regard to ASCII case.
pub open spec fn extension_kind(ext: Option<Seq<char>>) -> Option<Kind> {
    match ext {
        Some(e) => if is_image_extension(ascii_lower(e)) {
            Some(Kind::Image)
        } else if is_video_extension(ascii_lower(e)) {
            Some(Kind::Video)
        } else {
            None
        },
        None => None,
    }
}

/// The kind of media a pool entry names: procedural items by their ID, files
/// by their extension, compared without regard to ASCII case.
pub open spec fn kind_of(path: Seq<char>) -> Option<Kind> {
    if item_of(path) is Some {
        Some(Kind::Procedural)
    } else {
        extension_kind(path_extension(path))
    }
}

pub(crate) fn lowered(s: &Vec<char>) -> (r: Vec<char>)
    ensures
        r@ == ascii_lower(s@),
{
    let mut r: Vec<char> = Vec::new();
    let mut i: usize = 0;
    while i < s.len()
        invariant
            i <= s.len(),
            r@ == ascii_lower(s@.take(i as int)),
        decreases s.len() - i,
    {
        let c = s[i];
        let l = if 'A' <= c && c <= 'Z' {
            ((c as u8) + 32) as char
        } else {
            c
        };
        r.push(l);
        assert(ascii_lower(s@.take(i + 1)) =~= ascii_lower(s@.take(i as int)).push(l));
        i += 1;
    }
    assert(s@.take(s.len() as int) == s@);
    r
}

pub fn kind(path: &str) -> (r: Option<Kind>)
    ensures
        r == kind_of(path@),
{
    if crate::procedural::id(path).is_some() {
        return Some(Kind::Procedural);
    }
    kind_of_extension(extension(path))
}

/// The kind of file an extension (as `Path::extension` gives it) marks.
pub fn kind_of_extension(ext: Option<String>) -> (r: Option<Kind>)
    ensures
        r == extension_kind(opt_text(ext)),
{
    let e = match ext {
        Some(e) => e,
        None => return None,
    };
    let l = lowered(&chars_of(&e));
    if is(&l, "png") || is(&l, "jpg") || is(&l, "jpeg") || is(&l, "webp") || is(&l, "avif") || is(
        &l,
        "bmp",
    ) || is(&l, "svg") {
        Some(Kind::Image)
    } else if is(&l, "mp4") || is(&l, "mkv") || is(&l, "webm") || is(&l, "mov") {
        Some(Kind::Video)
    } else {
        None
    }
}

/// The texts of a sequence of strings.
pub open spec fn names(v: Seq<String>) -> Seq<Seq<char>> {
    v.map_values(|s: String| s@)
}

/// The image entries of a pool, in order.
pub open spec fn images(ps: Seq<Seq<char>>) -> Seq<Seq<char>>
    decreases ps.len(),
{
    if ps.len() == 0 {
        Seq::empty()
    } else if kind_of(ps.last()) == Some(Kind::Image) {
        images(ps.drop_last()).push(ps.last())
    } else {
        images(ps.drop_last())
    }
}

/// The first position in `ps` of a path equal to `x` (`Path`'s `==`: the
/// same components).
pub open spec fn position(ps: Seq<Seq<char>>, x: Seq<char>) -> Option<int>
    decreases ps.len(),
{
    if ps.len() == 0 {
        None
    } else if same_path(ps[0], x) {
        Some(0)
    } else {
        match position(ps.drop_first(), x) {
            Some(i) => Some(i + 1),
            None => None,
        }
    }
}

/// The abstract state of a [`Selection`].
pub struct SelectionView {
    pub paths: Seq<Seq<char>>,
    pub index: int,
}

impl SelectionView {
    /// The entry a selection shows.
    pub open spec fn current(self) -> Option<Seq<char>> {
        if 0 <= self.index < self.paths.len() {
            Some(self.paths[self.index])
        } else {
            None
        }
    }

    /// Whether `advance` moves on.
    pub open spec fn can_advance(self) -> bool {
        self.paths.len() >= 2
    }

    pub open spec fn advanced(self) -> SelectionView {
        if self.can_advance() {
            SelectionView { index: (self.index + 1) % (self.paths.len() as int), ..self }
        } else {
            self
        }
    }

    /// The selection after `n` calls of `advance`.
    pub open spec fn advanced_by(self, n: nat) -> SelectionView
        decreases n,
    {
        if n == 0 {
            self
        } else {
            self.advanced().advanced_by((n - 1) as nat)
        }
    }
}

/// The selection `Selection::new` makes: a video or procedural item plays
/// alone; a chosen image cycles with the pool's other images.
pub open spec fn chosen_selection(pool: Seq<Seq<char>>, seed: nat) -> SelectionView {
    if pool.len() == 0 {
        SelectionView { paths: pool, index: 0 }
    } else {
        let chosen = pool[(seed % pool.len()) as int];
        if kind_of(chosen) == Some(Kind::Video) || kind_of(chosen) == Some(Kind::Procedural) {
            SelectionView { paths: seq![chosen], index: 0 }
        } else {
            let paths = images(pool);
            SelectionView {
                paths,
                index: match position(paths, chosen) {
                    Some(i) => i,
                    None => 0,
                },
            }
        }
    }
}

#[derive(Debug)]
pub struct Selection {
    pub paths: Vec<String>,
    index: usize,
}

impl View for Selection {
    type V = SelectionView;

    closed spec fn view(&self) -> SelectionView {
        SelectionView { paths: names(self.paths@), index: self.index as int }
    }
}

proof fn lemma_position_bound(ps: Seq<Seq<char>>, x: Seq<char>)
    ensures
        position(ps, x) matches Some(i) ==> 0 <= i < ps.len() && same_path(ps[i], x),
    decreases ps.len(),
{
    if ps.len() > 0 {
        lemma_position_bound(ps.drop_first(), x);
    }
}

proof fn lemma_position(ps: Seq<Seq<char>>, x: Seq<char>, i: int)
    requires
        0 <= i <= ps.len(),
        forall|k: int| 0 <= k < i ==> !same_path(ps[k], x),
    ensures
        position(ps, x) == (match position(ps.skip(i), x) {
            Some(k) => Some(k + i),
            None => None::<int>,
        }),
    decreases i,
{
    if i == 0 {
        assert(ps.skip(0) == ps);
    } else {
        let t = ps.drop_first();
        assert forall|k: int| 0 <= k < i - 1 implies !same_path(t[k], x) by {
            assert(t[k] == ps[k + 1]);
        }
        lemma_position(t, x, i - 1);
        assert(t.skip(i - 1) == ps.skip(i));
    }
}

impl Selection {
    pub fn new(pool: Vec<String>, seed: usize) -> (s: Self)
        ensures
            s@ == chosen_selection(names(pool@), seed as nat),
            s.index_fits(),
    {
        if pool.len() == 0 {
            return Selection { paths: pool, index: 0 };
        }
        let chosen = pool[seed % pool.len()].clone();
        let ghost all = names(pool@);
        assert(chosen@ == all[(seed % pool.len()) as int]);
        let k = kind(&chosen);
        if matches!(k, Some(Kind::Video)) || matches!(k, Some(Kind::Procedural)) {
            let mut paths: Vec<String> = Vec::new();
            paths.push(chosen);
            assert(names(paths@) =~= seq![all[(seed % pool.len()) as int]]);
            return Selection { paths, index: 0 };
        }
        let mut paths: Vec<String> = Vec::new();
        let mut i: usize = 0;
        assert(all.take(0) == Seq::<Seq<char>>::empty());
        while i < pool.len()
            invariant
                i <= pool.len(),
                all == names(pool@),
                names(paths@) == images(all.take(i as int)),
            decreases pool.len() - i,
        {
            let ghost t = all.take(i + 1);
            assert(t.drop_last() == all.take(i as int));
            assert(t.last() == pool@[i as int]@);
            let item = pool[i].clone();
            if matches!(kind(&item), Some(Kind::Image)) {
                let ghost before = paths@;
                paths.push(item);
                assert(names(paths@) =~= names(before).push(item@));
            }
            i += 1;
        }
        assert(all.take(pool.len() as int) == all);
        let ghost ps = names(paths@);
        let mut index: usize = 0;
        while index < paths.len() && !crate::paths::same_path_as(paths[index].as_str(), chosen.as_str())
            invariant
                index <= paths.len(),
                ps == names(paths@),
                forall|k: int| 0 <= k < index ==> !same_path(ps[k], chosen@),
            decreases paths.len() - index,
        {
            index += 1;
        }
        proof {
            lemma_position(ps, chosen@, index as int);
            if index < paths.len() {
                assert(ps.skip(index as int)[0] == ps[index as int]);
            } else {
                assert(ps.skip(index as int).len() == 0);
            }
        }
        let index = if index < paths.len() {
            index
        } else {
            0
        };
        Selection { paths, index }
    }

    /// The position stays below the largest machine number, so advancing
    /// cannot overflow.
    pub open spec fn index_fits(&self) -> bool {
        self@.index < usize::MAX
    }

    pub fn current(&self) -> (r: Option<&str>)
        ensures
            match r {
                Some(p) => self@.current() == Some(p@),
                None => self@.current() is None,
            },
    {
        if self.index < self.paths.len() {
            Some(self.paths[self.index].as_str())
        } else {
            None
        }
    }

    pub fn advance(&mut self) -> (r: bool)
        requires
            old(self).index_fits(),
        ensures
            r == old(self)@.can_advance(),
            final(self)@ == old(self)@.advanced(),
            final(self).index_fits(),
    {
        if self.paths.len() < 2 {
            return false;
        }
        self.index = (self.index + 1) % self.paths.len();
        true
    }
}

proof fn lemma_images_are_images(ps: Seq<Seq<char>>)
    ensures
        forall|i: int| 0 <= i < images(ps).len() ==> kind_of(#[trigger] images(ps)[i]) == Some(
            Kind::Image,
        ),
    decreases ps.len(),
{
    if ps.len() > 0 {
        lemma_images_are_images(ps.drop_last());
    }
}

/// Advancing never changes the entries, and keeps the shown one among them.
proof fn lemma_advanced_by(s: SelectionView, n: nat)
    requires
        s.paths.len() > 0 ==> 0 <= s.index < s.paths.len(),
    ensures
        s.advanced_by(n).paths == s.paths,
        s.paths.len() > 0 ==> 0 <= s.advanced_by(n).index < s.paths.len(),
        s.paths.len() < 2 ==> s.advanced_by(n) == s,
    decreases n,
{
    if n > 0 {
        lemma_advanced_by(s.advanced(), (n - 1) as nat);
    }
}

/// Every media choice stays in its playback mode: a chosen video or
/// procedural item is shown alone for the whole lock, however often the
/// slideshow advances; a chosen image only ever gives way to other images.
pub proof fn law_choice_keeps_its_mode(pool: Seq<Seq<char>>, seed: nat, n: nat)
    requires
        pool.len() > 0,
    ensures
        ({
            let chosen = pool[(seed % pool.len()) as int];
            let s = chosen_selection(pool, seed).advanced_by(n);
            &&& (kind_of(chosen) == Some(Kind::Video) || kind_of(chosen) == Some(Kind::Procedural))
                ==> s.current() == Some(chosen) && !s.can_advance()
            &&& kind_of(chosen) == Some(Kind::Image) ==> s.current() is Some && kind_of(
                s.current().unwrap(),
            ) == Some(Kind::Image)
        }),
{
    let chosen = pool[(seed % pool.len()) as int];
    let s0 = chosen_selection(pool, seed);
    if kind_of(chosen) == Some(Kind::Video) || kind_of(chosen) == Some(Kind::Procedural) {
        lemma_advanced_by(s0, n);
    } else if kind_of(chosen) == Some(Kind::Image) {
        lemma_images_are_images(pool);
        lemma_position_bound(images(pool), chosen);
        lemma_image_kept(pool, chosen);
        lemma_advanced_by(s0, n);
        let s = s0.advanced_by(n);
        assert(kind_of(images(pool)[s.index]) == Some(Kind::Image));
    }
}

/// A chosen image is among the pool's images.
proof fn lemma_image_kept(pool: Seq<Seq<char>>, x: Seq<char>)
    requires
        pool.contains(x),
        kind_of(x) == Some(Kind::Image),
    ensures
        images(pool).contains(x),
    decreases pool.len(),
{
    if pool.last() == x {
        assert(images(pool).last() == x);
    } else {
        let i = choose|i: int| 0 <= i < pool.len() && pool[i] == x;
        assert(pool.drop_last()[i] == x);
        lemma_image_kept(pool.drop_last(), x);
        let j = choose|j: int| 0 <= j < images(pool.drop_last()).len() && images(pool.drop_last())[j] == x;
        if kind_of(pool.last()) == Some(Kind::Image) {
            assert(images(pool)[j] == x);
        }
    }
}


/// Where user data lives: `XDG_DATA_HOME` when it is set, else
/// `.local/share` under the home directory (or relative to nothing when no
/// home is known).
pub open spec fn data_home_of(xdg_data_home: Option<Seq<char>>, home: Option<Seq<char>>) -> Seq<char> {
    match xdg_data_home {
        Some(d) => d,
        None => joined(
            match home {
                Some(h) => h,
                None => Seq::empty(),
            },
            ".local/share"@,
        ),
    }
}

pub open spec fn user_dir_of(xdg_data_home: Option<Seq<char>>, home: Option<Seq<char>>) -> Seq<char> {
    joined(data_home_of(xdg_data_home, home), "decklock/library"@)
}

/// The user data directory, from the values of `XDG_DATA_HOME` and `HOME`.
pub fn data_home(xdg_data_home: Option<String>, home: Option<String>) -> (r: String)
    ensures
        r@ == data_home_of(opt_text(xdg_data_home), opt_text(home)),
{
    match xdg_data_home {
        Some(d) => d,
        None => {
            let h = match home {
                Some(h) => h,
                None => String::new(),
            };
            join(h.as_str(), ".local/share")
        },
    }
}

/// The folder of the library that receives an imported file of this kind;
/// only images and videos can be imported.
pub fn import_folder(kind: Option<Kind>) -> (r: Result<&'static str, String>)
    ensures
        kind == Some(Kind::Image) ==> (r matches Ok(f) && f@ == "images"@),
        kind == Some(Kind::Video) ==> (r matches Ok(f) && f@ == "videos"@),
        kind != Some(Kind::Image) && kind != Some(Kind::Video) ==> (r matches Err(e) && e@
            == "Unsupported media format"@),
{
    match kind {
        Some(Kind::Image) => Ok("images"),
        Some(Kind::Video) => Ok("videos"),
        _ => Err(crate::text::string_of(&chars_of("Unsupported media format"))),
    }
}

/// The name tried for the `number`th attempt to import a file called `name`:
/// the name itself first, then the name behind a number and a hyphen, so that
/// an import never overwrites a file.
pub open spec fn import_name_of(name: Seq<char>, number: u32) -> Seq<char> {
    if number == 0 {
        name
    } else {
        crate::text::decimal_text(number as nat) + "-"@ + name
    }
}

pub fn import_name(name: &str, number: u32) -> (r: String)
    ensures
        r@ == import_name_of(name@, number),
{
    if number == 0 {
        return crate::text::string_of(&chars_of(name));
    }
    let mut out = crate::text::decimal_of(number as u64);
    crate::text::append(&mut out, &chars_of("-"));
    crate::text::append(&mut out, &chars_of(name));
    crate::text::string_of(&out)
}

/// The folder that holds imported media, from the values of `XDG_DATA_HOME`
/// and `HOME`.
pub fn user_dir(xdg_data_home: Option<String>, home: Option<String>) -> (r: String)
    ensures
        r@ == user_dir_of(opt_text(xdg_data_home), opt_text(home)),
{
    let data = match xdg_data_home {
        Some(d) => d,
        None => {
            let h = match home {
                Some(h) => h,
                None => String::new(),
            };
            join(h.as_str(), ".local/share")
        },
    };
    join(data.as_str(), "decklock/library")
}

/// The setting that names a pool's legacy folder: the idle background for the
/// idle pool; for the lock pool the configured background, else the theme's.
pub open spec fn legacy_source_of(
    idle: bool,
    idle_background: Option<Seq<char>>,
    background: Option<Seq<char>>,
    theme_background: Option<Seq<char>>,
) -> Option<Seq<char>> {
    if idle {
        idle_background
    } else if background is Some {
        background
    } else {
        theme_background
    }
}

pub fn legacy_source(
    idle: bool,
    idle_background: Option<String>,
    background: Option<String>,
    theme_background: Option<String>,
) -> (r: Option<String>)
    ensures
        opt_text(r) == legacy_source_of(
            idle,
            opt_text(idle_background),
            opt_text(background),
            opt_text(theme_background),
        ),
{
    if idle {
        idle_background
    } else if background.is_some() {
        background
    } else {
        theme_background
    }
}

/// The media folder under the configuration directory that a pool falls back
/// to.
pub open spec fn home_folder_of(idle: bool) -> Seq<char> {
    if idle {
        "midias/ocioso"@
    } else {
        "midias/bloqueio"@
    }
}

pub fn home_folder(idle: bool) -> (r: &'static str)
    ensures
        r@ == home_folder_of(idle),
{
    if idle {
        "midias/ocioso"
    } else {
        "midias/bloqueio"
    }
}

pub open spec fn flattened(ls: Seq<Seq<Seq<char>>>) -> Seq<Seq<char>>
    decreases ls.len(),
{
    if ls.len() == 0 {
        Seq::empty()
    } else {
        flattened(ls.drop_last()) + ls.last()
    }
}

pub open spec fn listing(v: Option<Vec<String>>) -> Option<Seq<Seq<char>>> {
    match v {
        Some(l) => Some(names(l@)),
        None => None,
    }
}

/// The media a pool shows, given what each source lists: the explicit pool's
/// entries when the settings have one (each entry's files, in order); else the
/// legacy folder when it lists anything; else the configuration folder when it
/// lists anything; else nothing for the idle pool and the bundled media for
/// the lock pool.
pub open spec fn pool_of(
    explicit: Option<Seq<Seq<Seq<char>>>>,
    legacy: Option<Seq<Seq<char>>>,
    home: Option<Seq<Seq<char>>>,
    idle: bool,
    bundled: Seq<Seq<char>>,
) -> Seq<Seq<char>> {
    match explicit {
        Some(ls) => flattened(ls),
        None => if legacy is Some && legacy->0.len() > 0 {
            legacy->0
        } else if home is Some && home->0.len() > 0 {
            home->0
        } else if idle {
            Seq::empty()
        } else {
            bundled
        },
    }
}

pub open spec fn listings(ls: Seq<Vec<String>>) -> Seq<Seq<Seq<char>>> {
    ls.map_values(|l: Vec<String>| names(l@))
}

pub fn pool(
    explicit: Option<Vec<Vec<String>>>,
    legacy: Option<Vec<String>>,
    home: Option<Vec<String>>,
    idle: bool,
    bundled: Vec<String>,
) -> (r: Vec<String>)
    ensures
        names(r@) == pool_of(
            match explicit {
                Some(ls) => Some(listings(ls@)),
                None => None,
            },
            listing(legacy),
            listing(home),
            idle,
            names(bundled@),
        ),
{
    match explicit {
        Some(ls) => {
            let mut out: Vec<String> = Vec::new();
            let mut i: usize = 0;
            while i < ls.len()
                invariant
                    i <= ls.len(),
                    names(out@) == flattened(listings(ls@).take(i as int)),
                decreases ls.len() - i,
            {
                let ghost before = out@;
                let mut j: usize = 0;
                while j < ls[i].len()
                    invariant
                        i < ls.len(),
                        j <= ls[i as int].len(),
                        names(out@) == names(before) + names(ls[i as int]@).take(j as int),
                    decreases ls[i as int].len() - j,
                {
                    let ghost mid = out@;
                    out.push(ls[i][j].clone());
                    assert(names(out@) =~= names(mid).push(ls[i as int]@[j as int]@));
                    assert(names(ls[i as int]@).take(j + 1) =~= names(ls[i as int]@).take(
                        j as int,
                    ).push(ls[i as int]@[j as int]@));
                    j += 1;
                }
                assert(names(ls[i as int]@).take(j as int) =~= names(ls[i as int]@));
                assert(listings(ls@).take(i + 1).drop_last() =~= listings(ls@).take(i as int));
                assert(listings(ls@)[i as int] == names(ls[i as int]@));
                i += 1;
            }
            assert(listings(ls@).take(ls.len() as int) =~= listings(ls@));
            out
        },
        None => {
            if let Some(l) = legacy {
                if l.len() > 0 {
                    return l;
                }
            }
            if let Some(h) = home {
                if h.len() > 0 {
                    return h;
                }
            }
            if idle {
                Vec::new()
            } else {
                bundled
            }
        },
    }
}

/// A number that differs from lock to lock, for choosing what to show: the
/// clock's nanoseconds since the Unix epoch, kept to the width of `usize`.
pub fn seed() -> usize {
    let n = crate::clock::now_nanos();
    #[verifier::truncate]
    (n as usize)
}


/// Import names never repeat: every attempt tries a name no other attempt
/// tries, so a free name is always looked for, never an old one reused.
pub proof fn law_import_names_differ(name: Seq<char>, a: u32, b: u32)
    requires
        a != b,
    ensures
        import_name_of(name, a) != import_name_of(name, b),
{
    reveal_strlit("-");
    crate::text::lemma_decimal_round_trip(a as nat);
    crate::text::lemma_decimal_round_trip(b as nat);
    let ta = crate::text::decimal_text(a as nat);
    let tb = crate::text::decimal_text(b as nat);
    if a != 0 && b != 0 {
        if import_name_of(name, a) == import_name_of(name, b) {
            let x = ta + "-"@ + name;
            let y = tb + "-"@ + name;
            assert(x.len() == y.len());
            assert(ta.len() == tb.len());
            assert(x.take(ta.len() as int) =~= ta);
            assert(y.take(tb.len() as int) =~= tb);
            assert(ta == tb);
        }
    } else if a == 0 {
        assert(import_name_of(name, b).len() > name.len());
    } else {
        assert(import_name_of(name, a).len() > name.len());
    }
}


proof fn lemma_advanced_index(s: SelectionView, n: nat)
    requires
        s.paths.len() >= 2,
        0 <= s.index < s.paths.len(),
    ensures
        s.advanced_by(n).index == (s.index + n) % (s.paths.len() as int),
        s.advanced_by(n).paths == s.paths,
    decreases n,
{
    let m = s.paths.len() as int;
    if n > 0 {
        let t = s.advanced();
        lemma_advanced_index(t, (n - 1) as nat);
        vstd::arithmetic::div_mod::lemma_add_mod_noop(s.index + 1, n - 1, m);
        vstd::arithmetic::div_mod::lemma_small_mod((n - 1) as nat % (m as nat), m as nat);
        vstd::arithmetic::div_mod::lemma_add_mod_noop(t.index, n - 1, m);
        vstd::arithmetic::div_mod::lemma_small_mod(t.index as nat, m as nat);
    } else {
        vstd::arithmetic::div_mod::lemma_small_mod(s.index as nat, m as nat);
    }
}

/// The slideshow shows every image of its selection in turn, one per step,
/// and is back where it started after a full round.
pub proof fn law_slideshow_cycles(s: SelectionView, j: int)
    requires
        s.paths.len() >= 2,
        0 <= s.index < s.paths.len(),
        0 <= j < s.paths.len(),
    ensures
        s.advanced_by(s.paths.len()) == s,
        ({
            let steps = (j - s.index + s.paths.len()) % (s.paths.len() as int);
            s.advanced_by(steps as nat).current() == Some(s.paths[j])
        }),
{
    let m = s.paths.len() as int;
    lemma_advanced_index(s, m as nat);
    vstd::arithmetic::div_mod::lemma_add_mod_noop(s.index, m, m);
    vstd::arithmetic::div_mod::lemma_mod_self_0(m);
    vstd::arithmetic::div_mod::lemma_small_mod(s.index as nat, m as nat);
    let steps = (j - s.index + m) % m;
    vstd::arithmetic::div_mod::lemma_mod_bound(j - s.index + m, m);
    lemma_advanced_index(s, steps as nat);
    vstd::arithmetic::div_mod::lemma_add_mod_noop(s.index, j - s.index + m, m);
    vstd::arithmetic::div_mod::lemma_add_mod_noop(j, m, m);
    vstd::arithmetic::div_mod::lemma_small_mod(j as nat, m as nat);
    assert(s.advanced_by(m as nat) =~= s);
}

/// A path equal to an entry is always found.
proof fn lemma_position_found(ps: Seq<Seq<char>>, x: Seq<char>)
    requires
        ps.contains(x),
    ensures
        position(ps, x) is Some,
    decreases ps.len(),
{
    if ps[0] != x {
        let i = choose|i: int| 0 <= i < ps.len() && ps[i] == x;
        assert(ps.drop_first()[i - 1] == x);
        lemma_position_found(ps.drop_first(), x);
    }
}

/// The entry the seed chose is the one shown first: a chosen video or
/// procedural item is shown itself, and a chosen image starts the slideshow
/// at that image (at its first spelling among the pool's images, as `Path`'s
/// equality finds it), whichever position it holds in the pool.
pub proof fn law_the_chosen_entry_is_shown_first(pool: Seq<Seq<char>>, seed: nat)
    requires
        pool.len() > 0,
        kind_of(pool[(seed % pool.len()) as int]) is Some,
    ensures
        ({
            let chosen = pool[(seed % pool.len()) as int];
            chosen_selection(pool, seed).current() matches Some(shown) && same_path(shown, chosen)
        }),
{
    let chosen = pool[(seed % pool.len()) as int];
    assert(pool.contains(chosen));
    if kind_of(chosen) == Some(Kind::Image) {
        lemma_image_kept(pool, chosen);
        lemma_position_found(images(pool), chosen);
        lemma_position_bound(images(pool), chosen);
    }
}

/// The documented media extensions, in any ASCII case: png, jpg, jpeg, webp,
/// avif, bmp and svg are images; mp4, mkv, webm and mov are videos. A file
/// entry (no procedural ID) has the kind of its extension.
pub proof fn law_documented_extensions(e: Seq<char>, path: Seq<char>)
    ensures
        ascii_lower(e) == "png"@ || ascii_lower(e) == "jpg"@ || ascii_lower(e) == "jpeg"@
            || ascii_lower(e) == "webp"@ || ascii_lower(e) == "avif"@ || ascii_lower(e) == "bmp"@
            || ascii_lower(e) == "svg"@ ==> extension_kind(Some(e)) == Some(Kind::Image),
        ascii_lower(e) == "mp4"@ || ascii_lower(e) == "mkv"@ || ascii_lower(e) == "webm"@
            || ascii_lower(e) == "mov"@ ==> extension_kind(Some(e)) == Some(Kind::Video),
        extension_kind(None) is None,
        item_of(path) is None && path_extension(path) == Some(e) ==> kind_of(path) == extension_kind(
            Some(e),
        ),
{
    reveal_strlit("png");
    reveal_strlit("jpg");
    reveal_strlit("jpeg");
    reveal_strlit("webp");
    reveal_strlit("avif");
    reveal_strlit("bmp");
    reveal_strlit("svg");
    reveal_strlit("mp4");
    reveal_strlit("mkv");
    reveal_strlit("webm");
    reveal_strlit("mov");
    let l = ascii_lower(e);
    if l == "mp4"@ || l == "mkv"@ || l == "webm"@ || l == "mov"@ {
        assert(!is_image_extension(l)) by {
            assert(l[0] == 'm' || l[0] == 'w');
            assert(l.len() == 3 ==> l[0] != 'p' && l[0] != 'j' && l[0] != 'b' && l[0] != 's');
            if l.len() == 4 {
                assert(l == "webm"@ ==> l[1] != "webp"@[1] || l[3] != "webp"@[3]);
            }
        }
    }
}

} // verus!
