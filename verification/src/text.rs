//! Text helpers: what the standard library does to strings, named or stated,
//! and the rule for an entry's description.

use vstd::prelude::*;

verus! {

/// What `str::trim` leaves of `text`: the text without its leading and
/// trailing Unicode white space.
pub uninterp spec fn trimmed(text: Seq<char>) -> Seq<char>;

/// What `str::to_lowercase` makes of `text`.
pub uninterp spec fn lowercased(text: Seq<char>) -> Seq<char>;

/// `a` comes before `b` when the two are compared character by character,
/// by code point, a proper prefix coming first.
pub open spec fn text_less(a: Seq<char>, b: Seq<char>) -> bool
    decreases a.len(),
{
    if b.len() == 0 {
        false
    } else if a.len() == 0 {
        true
    } else if a[0] != b[0] {
        (a[0] as int) < (b[0] as int)
    } else {
        text_less(a.drop_first(), b.drop_first())
    }
}

/// The description used for an entry that has none.
pub open spec fn default_description() -> Seq<char> {
    "Other"@
}

/// The description of an entry: the trimmed text, or the default where the
/// text is missing or blank.
pub open spec fn description_of(raw: Option<Seq<char>>) -> Seq<char> {
    match raw {
        Some(text) => if trimmed(text).len() == 0 {
            default_description()
        } else {
            trimmed(text)
        },
        None => default_description(),
    }
}

/// `str::trim`, with the result copied into a `String`.
#[verifier::external_body]
pub(crate) fn trim(text: &str) -> (r: String)
    ensures
        r@ == trimmed(text@),
{
    text.trim().to_owned()
}

/// `str::to_lowercase`.
#[verifier::external_body]
pub(crate) fn to_lowercase(text: &str) -> (r: String)
    ensures
        r@ == lowercased(text@),
{
    text.to_lowercase()
}

/// The `<` of `str`: strings are ordered lexicographically by their bytes,
/// which is the order of their code points.
#[verifier::external_body]
pub(crate) fn text_lt(a: &str, b: &str) -> (r: bool)
    ensures
        r == text_less(a@, b@),
{
    a < b
}

/// The description for a text that is already trimmed: the text itself, or
/// the default where nothing is left of it.
pub fn description_or_default(trimmed_text: String) -> (description: String)
    ensures
        description@ == (if trimmed_text@.len() == 0 {
            default_description()
        } else {
            trimmed_text@
        }),
{
    if trimmed_text.as_str().is_empty() {
        "Other".to_owned()
    } else {
        trimmed_text
    }
}

/// The description of an entry from the text that the service sent, if any.
pub fn normalize_description(raw: Option<&str>) -> (description: String)
    ensures
        description@ == description_of(
            match raw {
                Some(text) => Some(text@),
                None => None,
            },
        ),
{
    match raw {
        Some(text) => description_or_default(trim(text)),
        None => "Other".to_owned(),
    }
}

/// Of two different texts one comes before the other.
pub proof fn lemma_text_less_total(a: Seq<char>, b: Seq<char>)
    requires
        a != b,
    ensures
        text_less(a, b) || text_less(b, a),
    decreases a.len(),
{
    if a.len() > 0 && b.len() > 0 && a[0] == b[0] {
        if a.drop_first() == b.drop_first() {
            assert(a =~= seq![a[0]] + a.drop_first());
            assert(b =~= seq![b[0]] + b.drop_first());
        }
        lemma_text_less_total(a.drop_first(), b.drop_first());
    } else if a.len() == 0 {
        assert(b.len() > 0) by {
            if b.len() == 0 {
                assert(a =~= b);
            }
        }
    } else if b.len() > 0 {
        assert((a[0] as int) != (b[0] as int));
    }
}

/// The order of texts is transitive.
pub proof fn lemma_text_less_transitive(a: Seq<char>, b: Seq<char>, c: Seq<char>)
    requires
        text_less(a, b),
        text_less(b, c),
    ensures
        text_less(a, c),
    decreases a.len(),
{
    if a.len() > 0 && a[0] == b[0] && b[0] == c[0] {
        lemma_text_less_transitive(a.drop_first(), b.drop_first(), c.drop_first());
    }
}

} // verus!
