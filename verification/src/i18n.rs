//! Which interface language a lock screen speaks: the requested or
//! environment locale, normalized to a language tag.
use crate::library::ascii_lower;
use crate::text::{chars_of, opt_text, slice, string_of};
use vstd::prelude::*;

verus! {

/// `s` up to (not including) its first `a` or `b`.
pub open spec fn cut(s: Seq<char>, a: char, b: char) -> Seq<char>
    decreases s.len(),
{
    if s.len() == 0 || s[0] == a || s[0] == b {
        Seq::empty()
    } else {
        seq![s[0]] + cut(s.drop_first(), a, b)
    }
}

/// The first value that is set and not empty, as `LC_ALL`, `LC_MESSAGES` and
/// `LANG` are consulted in that order.
pub open spec fn first_set(values: Seq<Option<Seq<char>>>) -> Option<Seq<char>>
    decreases values.len(),
{
    if values.len() == 0 {
        None
    } else if values[0] is Some && values[0]->0.len() > 0 {
        values[0]
    } else {
        first_set(values.drop_first())
    }
}

/// The requested locale without encoding or modifier, with `_` written `-`.
pub open spec fn normalized(requested: Seq<char>) -> Seq<char> {
    cut(requested, '.', '@').map_values(|c: char| if c == '_' { '-' } else { c })
}

/// The language subtag of a normalized locale, in lower case.
pub open spec fn language(normalized: Seq<char>) -> Seq<char> {
    ascii_lower(cut(normalized, '-', '-'))
}

/// The catalog locale for a requested locale: every Portuguese variant uses
/// the Brazilian catalog, English and the C locale use American English, and
/// any other locale is kept so that an external catalog can serve it.
pub open spec fn selected_of(locale: Option<Seq<char>>, env: Seq<Option<Seq<char>>>) -> Seq<char> {
    let requested = match locale {
        Some(l) => l,
        None => match first_set(env) {
            Some(e) => e,
            None => "en-US"@,
        },
    };
    let n = normalized(requested);
    let lang = language(n);
    if lang == "pt"@ {
        "pt-BR"@
    } else if lang == "en"@ || n == "C"@ || n == "POSIX"@ {
        "en-US"@
    } else {
        n
    }
}

proof fn lemma_cut(s: Seq<char>, a: char, b: char, i: int)
    requires
        0 <= i <= s.len(),
        forall|k: int| 0 <= k < i ==> s[k] != a && s[k] != b,
        i == s.len() || s[i] == a || s[i] == b,
    ensures
        cut(s, a, b) == s.take(i),
    decreases i,
{
    if i > 0 {
        lemma_cut(s.drop_first(), a, b, i - 1);
        assert(s.take(i) =~= seq![s[0]] + s.drop_first().take(i - 1));
    } else {
        assert(s.take(0) =~= Seq::<char>::empty());
    }
}

fn cut_of(s: &Vec<char>, a: char, b: char) -> (r: Vec<char>)
    ensures
        r@ == cut(s@, a, b),
{
    let mut i: usize = 0;
    while i < s.len() && s[i] != a && s[i] != b
        invariant
            i <= s.len(),
            forall|k: int| 0 <= k < i ==> s@[k] != a && s@[k] != b,
        decreases s.len() - i,
    {
        i += 1;
    }
    proof {
        lemma_cut(s@, a, b, i as int);
    }
    slice(s, 0, i)
}

fn first_set_of(values: &Vec<Option<String>>) -> (r: Option<String>)
    ensures
        opt_text(r) == first_set(values@.map_values(|v: Option<String>| opt_text(v))),
{
    let ghost vs = values@.map_values(|v: Option<String>| opt_text(v));
    assert(vs.skip(0) =~= vs);
    let mut i: usize = 0;
    while i < values.len()
        invariant
            i <= values.len(),
            vs == values@.map_values(|v: Option<String>| opt_text(v)),
            first_set(vs) == first_set(vs.skip(i as int)),
        decreases values.len() - i,
    {
        assert(vs.skip(i as int)[0] == opt_text(values@[i as int]));
        assert(vs.skip(i as int).drop_first() =~= vs.skip(i + 1));
        match &values[i] {
            Some(v) => {
                if chars_of(v.as_str()).len() > 0 {
                    return Some(v.clone());
                }
            },
            None => {},
        }
        i += 1;
    }
    assert(vs.skip(i as int).len() == 0);
    None
}

/// The catalog locale for `locale`, or for the first of the environment's
/// locale variables (`LC_ALL`, `LC_MESSAGES`, `LANG`) that is set.
pub fn select_locale(locale: Option<&str>, env: &Vec<Option<String>>) -> (r: String)
    ensures
        r@ == selected_of(
            match locale {
                Some(l) => Some(l@),
                None => None,
            },
            env@.map_values(|v: Option<String>| opt_text(v)),
        ),
{
    let requested: Vec<char> = match locale {
        Some(l) => chars_of(l),
        None => match first_set_of(env) {
            Some(e) => chars_of(e.as_str()),
            None => chars_of("en-US"),
        },
    };
    let head = cut_of(&requested, '.', '@');
    let mut n: Vec<char> = Vec::new();
    let mut i: usize = 0;
    while i < head.len()
        invariant
            i <= head.len(),
            n@ == head@.take(i as int).map_values(|c: char| if c == '_' { '-' } else { c }),
        decreases head.len() - i,
    {
        let c = head[i];
        n.push(if c == '_' { '-' } else { c });
        assert(head@.take(i + 1) =~= head@.take(i as int).push(c));
        assert(n@ =~= head@.take(i + 1).map_values(|c: char| if c == '_' { '-' } else { c }));
        i += 1;
    }
    assert(head@.take(head.len() as int) =~= head@);
    let first = cut_of(&n, '-', '-');
    let lang = crate::library::lowered(&first);
    if crate::text::is(&lang, "pt") {
        string_of(&chars_of("pt-BR"))
    } else if crate::text::is(&lang, "en") || crate::text::is(&n, "C") || crate::text::is(&n, "POSIX") {
        string_of(&chars_of("en-US"))
    } else {
        string_of(&n)
    }
}


proof fn lemma_cut_excludes(s: Seq<char>, a: char, b: char)
    ensures
        forall|i: int| 0 <= i < cut(s, a, b).len() ==> #[trigger] cut(s, a, b)[i] != a && cut(s, a, b)[i]
            != b,
    decreases s.len(),
{
    if s.len() > 0 && s[0] != a && s[0] != b {
        lemma_cut_excludes(s.drop_first(), a, b);
        let c = cut(s, a, b);
        assert forall|i: int| 0 <= i < c.len() implies #[trigger] c[i] != a && c[i] != b by {
            if i > 0 {
                assert(c[i] == cut(s.drop_first(), a, b)[i - 1]);
            }
        }
    }
}

/// Every Portuguese locale uses the Brazilian catalog and every English one
/// the American catalog, and the locale a catalog is chosen for never carries
/// an encoding (`.UTF-8`) or a modifier (`@euro`), nor an underscore.
pub proof fn law_catalog_choice(locale: Seq<char>, env: Seq<Option<Seq<char>>>)
    ensures
        language(normalized(locale)) == "pt"@ ==> selected_of(Some(locale), env) == "pt-BR"@,
        language(normalized(locale)) == "en"@ ==> selected_of(Some(locale), env) == "en-US"@,
        forall|i: int|
            0 <= i < selected_of(Some(locale), env).len() ==> #[trigger] selected_of(
                Some(locale),
                env,
            )[i] != '.' && selected_of(Some(locale), env)[i] != '@' && selected_of(
                Some(locale),
                env,
            )[i] != '_',
{
    reveal_strlit("pt-BR");
    reveal_strlit("en-US");
    reveal_strlit("pt");
    reveal_strlit("en");
    assert("en"@[0] != "pt"@[0]);
    lemma_cut_excludes(locale, '.', '@');
    let n = normalized(locale);
    assert forall|i: int| 0 <= i < n.len() implies #[trigger] n[i] != '.' && n[i] != '@' && n[i]
        != '_' by {
        assert(cut(locale, '.', '@')[i] != '.' && cut(locale, '.', '@')[i] != '@');
    }
}

#[verifier::external_type_specification]
#[verifier::external_body]
pub struct ExLanguageIdentifier(unic_langid::LanguageIdentifier);

/// What `LanguageIdentifier::from_str` (unic-langid) makes of a text: the
/// identifier when the text is a well-formed language identifier, else the
/// `Display` text of its error.
pub uninterp spec fn langid_parse(s: Seq<char>) -> Result<unic_langid::LanguageIdentifier, Seq<char>>;

/// `str::parse::<unic_langid::LanguageIdentifier>`, with the error as text.
#[verifier::external_body]
fn parse_langid(s: &str) -> (r: Result<unic_langid::LanguageIdentifier, String>)
    ensures
        match r {
            Ok(id) => langid_parse(s@) == Ok::<unic_langid::LanguageIdentifier, Seq<char>>(id),
            Err(e) => langid_parse(s@) == Err::<unic_langid::LanguageIdentifier, Seq<char>>(e@),
        },
{
    s.parse::<unic_langid::LanguageIdentifier>().map_err(|e| e.to_string())
}

pub open spec fn invalid_locale_of(selected: Seq<char>, reason: Seq<char>) -> Seq<char> {
    "Invalid locale "@ + selected + ": "@ + reason
}

/// The message for a catalog locale that is no language identifier.
pub fn invalid_locale(selected: &str, reason: &str) -> (r: String)
    ensures
        r@ == invalid_locale_of(selected@, reason@),
{
    let mut out = chars_of("Invalid locale ");
    crate::text::append(&mut out, &chars_of(selected));
    crate::text::append(&mut out, &chars_of(": "));
    crate::text::append(&mut out, &chars_of(reason));
    string_of(&out)
}

/// The catalog locale and its language identifier; an error when the selected
/// locale is no identifier.
pub fn locale_identifier(locale: Option<&str>, env: &Vec<Option<String>>) -> (r: Result<
    (String, unic_langid::LanguageIdentifier),
    String,
>)
    ensures
        ({
            let selected = selected_of(
                match locale {
                    Some(l) => Some(l@),
                    None => None,
                },
                env@.map_values(|v: Option<String>| opt_text(v)),
            );
            match langid_parse(selected) {
                Ok(id) => r matches Ok(p) && p.0@ == selected && p.1 == id,
                Err(reason) => r matches Err(e) && e@ == invalid_locale_of(selected, reason),
            }
        }),
{
    let selected = select_locale(locale, env);
    match parse_langid(selected.as_str()) {
        Ok(id) => Ok((selected, id)),
        Err(reason) => Err(invalid_locale(selected.as_str(), reason.as_str())),
    }
}

} // verus!
