//! Choosing and parsing the monospace font for terminal rendering.
//!
//! Finding fonts on the system and reading their files stays with the
//! program; the library picks among the families found and parses the font
//! data.

use vstd::prelude::*;

verus! {

/// A parsed font of the `fontdue` crate.
#[verifier::external_type_specification]
#[verifier::external_body]
pub struct ExFont(fontdue::Font);

/// Whether `bytes` hold font data that `fontdue` parses with its default
/// settings.
pub uninterp spec fn font_parses(bytes: Seq<u8>) -> bool;

/// `fontdue::Font::from_bytes` with the default `FontSettings`.
///
/// Claimed: it succeeds exactly on the bytes that parse; parsing depends on
/// the bytes alone, since the settings are fixed. What the font holds is not
/// stated.
#[verifier::external_body]
fn font_from_bytes(bytes: &[u8]) -> (r: Result<fontdue::Font, &'static str>)
    ensures
        r is Ok <==> font_parses(bytes@),
{
    fontdue::Font::from_bytes(bytes, fontdue::FontSettings::default())
}

/// Parses font data with the default settings, giving the parser's message
/// when the data is not a font it can read.
pub fn parse_font(bytes: &[u8]) -> (r: Result<fontdue::Font, &'static str>)
    ensures
        r is Ok <==> font_parses(bytes@),
{
    font_from_bytes(bytes)
}

/// The first result that found something, in order of preference.
pub open spec fn first_found<T>(results: Seq<Option<T>>) -> Option<T>
    decreases results.len(),
{
    if results.len() == 0 {
        None
    } else if results[0] is Some {
        results[0]
    } else {
        first_found(results.drop_first())
    }
}

/// The result is the entry at the least index that found something, every
/// entry up to the last one being considered; nothing is found only when no
/// entry found anything.
pub proof fn lemma_first_found<T>(results: Seq<Option<T>>)
    ensures
        forall|i: int|
            0 <= i < results.len() && #[trigger] results[i] is Some && (forall|j: int|
                0 <= j < i ==> results[j] is None) ==> first_found(results) == results[i],
        (forall|i: int| 0 <= i < results.len() ==> #[trigger] results[i] is None) ==> first_found(
            results,
        ) is None,
    decreases results.len(),
{
    if results.len() > 0 {
        let rest = results.drop_first();
        lemma_first_found(rest);
        assert forall|i: int|
            0 <= i < results.len() && #[trigger] results[i] is Some && (forall|j: int|
                0 <= j < i ==> results[j] is None) implies first_found(results) == results[i] by {
            if i > 0 {
                assert(results[0] is None);
                assert(rest[i - 1] == results[i]);
                assert forall|j: int| 0 <= j < i - 1 implies rest[j] is None by {
                    assert(rest[j] == results[j + 1]);
                }
            }
        }
        if forall|i: int| 0 <= i < results.len() ==> #[trigger] results[i] is None {
            assert(results[0] is None);
            assert forall|j: int| 0 <= j < rest.len() implies #[trigger] rest[j] is None by {
                assert(rest[j] == results[j + 1]);
            }
        }
    }
}

/// Picks the face of the most preferred font family that the system has:
/// `results` holds what the search for each family found, most preferred
/// first.
pub fn preferred_face<T: Copy>(results: &[Option<T>]) -> (r: Option<T>)
    ensures
        r == first_found(results@),
{
    let mut k: usize = 0;
    proof {
        assert(results@.skip(0) =~= results@);
    }
    while k < results.len()
        invariant
            k <= results@.len(),
            first_found(results@) == first_found(results@.skip(k as int)),
        decreases results@.len() - k,
    {
        proof {
            assert(results@.skip(k as int).drop_first() =~= results@.skip(k + 1));
        }
        if let Some(face) = results[k] {
            return Some(face);
        }
        k = k + 1;
    }
    proof {
        assert(results@.skip(k as int).len() == 0);
    }
    None
}

} // verus!
