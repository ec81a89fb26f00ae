use vstd::prelude::*;

verus! {

/// Length of a lock token.
pub const TOKEN_LEN: usize = 10;

/// The characters a lock token is drawn from.
pub const TOKEN_ALPHABET: &'static str = "0123456789abcdefghijklmnopqrstuvwxyz";

/// A digit or a lower-case ASCII letter.
pub open spec fn is_token_char(c: char) -> bool {
    ('0' <= c && c <= '9') || ('a' <= c && c <= 'z')
}

/// A well-formed token: `TOKEN_LEN` characters from `[0-9a-z]`.
pub open spec fn is_token(t: Seq<char>) -> bool {
    &&& t.len() == TOKEN_LEN
    &&& forall|i: int| 0 <= i < t.len() ==> is_token_char(#[trigger] t[i])
}

/// Relies on random_string::generate: the result has `length` characters,
/// each taken from `charset`, which must not be empty.
#[verifier::external_body]
fn generate_string(length: usize, charset: &str) -> (r: String)
    requires
        charset@.len() > 0,
    ensures
        r@.len() == length,
        forall|i: int| 0 <= i < r@.len() ==> charset@.contains(#[trigger] r@[i]),
{
    random_string::generate(length, charset)
}

proof fn lemma_alphabet_chars(c: char)
    requires
        TOKEN_ALPHABET@.contains(c),
    ensures
        is_token_char(c),
{
    reveal_strlit("0123456789abcdefghijklmnopqrstuvwxyz");
    let i = choose|i: int| 0 <= i < TOKEN_ALPHABET@.len() && TOKEN_ALPHABET@[i] == c;
    assert(0 <= i < 36);
}

/// Draws a random well-formed token.
pub fn random_token() -> (r: String)
    ensures
        is_token(r@),
{
    proof {
        reveal_strlit("0123456789abcdefghijklmnopqrstuvwxyz");
    }
    let r = generate_string(TOKEN_LEN, TOKEN_ALPHABET);
    proof {
        assert forall|i: int| 0 <= i < r@.len() implies is_token_char(#[trigger] r@[i]) by {
            lemma_alphabet_chars(r@[i]);
        }
    }
    r
}

} // verus!
