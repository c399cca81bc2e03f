//! The token dictionary, kept in libafl's `Tokens`.

use libafl::mutators::Tokens;
use vstd::prelude::*;

verus! {

/// `Tokens` of libafl, the dictionary that its token mutators read. Nothing
/// of its inside is known here; what it holds is told by `token_list`.
#[verifier::external_type_specification]
#[verifier::external_body]
pub struct ExTokens(Tokens);

/// The byte strings that a `Tokens` holds, in the order in which they were
/// added.
pub uninterp spec fn token_list(tokens: Tokens) -> Seq<Seq<u8>>;

/// `Tokens::new` of libafl: a dictionary that holds nothing.
#[verifier::external_body]
fn empty_tokens() -> (tokens: Tokens)
    ensures
        token_list(tokens) == Seq::<Seq<u8>>::empty(),
{
    Tokens::new()
}

/// `Tokens::add_token` of libafl: a byte string that the dictionary does not
/// hold yet goes to its end and the call returns true; one that it holds
/// already changes nothing and the call returns false.
#[verifier::external_body]
fn add_token(tokens: &mut Tokens, token: &Vec<u8>) -> (added: bool)
    ensures
        added == !token_list(*old(tokens)).contains(token@),
        token_list(*final(tokens)) == (if added {
            token_list(*old(tokens)).push(token@)
        } else {
            token_list(*old(tokens))
        }),
{
    tokens.add_token(token)
}

/// `Tokens::len` of libafl: the number of byte strings held.
#[verifier::external_body]
fn token_count(tokens: &Tokens) -> (n: usize)
    ensures
        n == token_list(*tokens).len(),
{
    tokens.len()
}

/// `Tokens::tokens` of libafl, at one index: a copy of the byte string there.
#[verifier::external_body]
fn token_at(tokens: &Tokens, index: usize) -> (token: Vec<u8>)
    requires
        index < token_list(*tokens).len(),
    ensures
        token@ == token_list(*tokens)[index as int],
{
    tokens.tokens()[index].clone()
}

/// `list` with each byte string of `more` added at its end, in order, that
/// is not empty and that it does not hold yet.
pub open spec fn with_new(list: Seq<Seq<u8>>, more: Seq<Seq<u8>>) -> Seq<Seq<u8>>
    decreases more.len(),
{
    if more.len() == 0 {
        list
    } else {
        let before = with_new(list, more.drop_last());
        if more.last().len() == 0 || before.contains(more.last()) {
            before
        } else {
            before.push(more.last())
        }
    }
}

/// No byte string stands twice.
pub open spec fn no_repeats(list: Seq<Seq<u8>>) -> bool {
    forall|i: int, j: int| 0 <= i < j < list.len() ==> list[i] != list[j]
}

/// No byte string is empty.
pub open spec fn none_empty(list: Seq<Seq<u8>>) -> bool {
    forall|i: int| 0 <= i < list.len() ==> (#[trigger] list[i]).len() > 0
}

/// The byte strings of `tokens` as sequences.
pub open spec fn byte_strings(tokens: Seq<Vec<u8>>) -> Seq<Seq<u8>> {
    Seq::new(tokens.len(), |i: int| tokens[i]@)
}

/// An ordered set of byte strings for the token mutators: those that the
/// user supplied, then those extracted from the target. Once loaded it is
/// only read.
pub struct TokenDictionary {
    tokens: Tokens,
}

impl View for TokenDictionary {
    type V = Seq<Seq<u8>>;

    closed spec fn view(&self) -> Seq<Seq<u8>> {
        token_list(self.tokens)
    }
}

impl TokenDictionary {
    /// Each token stands once, and none is empty.
    pub open spec fn wf(&self) -> bool {
        no_repeats(self@) && none_empty(self@)
    }

    /// Loads the dictionary: the user's tokens in their order, then the
    /// extracted ones, each byte string once, at the place of its first
    /// occurrence. Empty byte strings are left out.
    pub fn load(user: &Vec<Vec<u8>>, extracted: &Vec<Vec<u8>>) -> (dictionary: TokenDictionary)
        ensures
            dictionary@ == with_new(
                with_new(Seq::empty(), byte_strings(user@)),
                byte_strings(extracted@),
            ),
            dictionary.wf(),
    {
        let mut tokens: Tokens = empty_tokens();
        add_all(&mut tokens, user);
        add_all(&mut tokens, extracted);
        TokenDictionary { tokens }
    }

    /// The number of tokens.
    pub fn len(&self) -> (n: usize)
        ensures
            n == self@.len(),
    {
        token_count(&self.tokens)
    }

    /// Whether the dictionary holds no token.
    pub fn is_empty(&self) -> (empty: bool)
        ensures
            empty == (self@.len() == 0),
    {
        token_count(&self.tokens) == 0
    }

    /// The token at `index`, if there is one.
    pub fn get(&self, index: usize) -> (token: Option<Vec<u8>>)
        ensures
            token.is_some() == (index < self@.len()),
            token matches Some(t) ==> t@ == self@[index as int],
    {
        if index < token_count(&self.tokens) {
            Some(token_at(&self.tokens, index))
        } else {
            None
        }
    }

    /// The dictionary as libafl's mutators take it.
    pub(crate) fn tokens(&self) -> (tokens: &Tokens)
        ensures
            token_list(*tokens) == self@,
    {
        &self.tokens
    }
}

/// Adds each byte string of `more` that `tokens` does not hold yet.
fn add_all(tokens: &mut Tokens, more: &Vec<Vec<u8>>)
    requires
        no_repeats(token_list(*old(tokens))),
        none_empty(token_list(*old(tokens))),
    ensures
        token_list(*final(tokens)) == with_new(token_list(*old(tokens)), byte_strings(more@)),
        no_repeats(token_list(*final(tokens))),
        none_empty(token_list(*final(tokens))),
{
    let mut i: usize = 0;
    while i < more.len()
        invariant
            i <= more@.len(),
            token_list(*tokens) == with_new(
                token_list(*old(tokens)),
                byte_strings(more@).take(i as int),
            ),
            no_repeats(token_list(*tokens)),
            none_empty(token_list(*tokens)),
        decreases more@.len() - i,
    {
        let ghost before = token_list(*tokens);
        assert(byte_strings(more@).take(i + 1).drop_last() =~= byte_strings(more@).take(i as int));
        assert(byte_strings(more@).take(i + 1).last() == more@[i as int]@);
        if more[i].len() > 0 {
            let added: bool = add_token(tokens, &more[i]);
        }
        i = i + 1;
    }
    assert(byte_strings(more@).take(i as int) =~= byte_strings(more@));
}

} // verus!
