//! Validated accounts.

use vstd::prelude::*;
use vstd::string::*;
use vstd::utf8::*;

use crate::error::{Failure, FinTSError, Result};
use crate::ids::{Bic, Iban};
use crate::segments::builder::{addressable, german_iban, iban_account, iban_blz};
use crate::text::{
    all_alnum, byte_len, chars_all_alnum, chars_of, has_prefix, is_alnum, is_lower, is_space,
    push_char, space_char, text_has_prefix, to_upper_char, upper_char,
};

verus! {

// ---- Model ----

/// A text without white space, in ASCII upper case.
pub open spec fn normalized(s: Seq<char>) -> Seq<char>
    decreases s.len(),
{
    if s.len() == 0 {
        Seq::empty()
    } else if is_space(s.last()) {
        normalized(s.drop_last())
    } else {
        normalized(s.drop_last()).push(upper_char(s.last()))
    }
}

/// German IBANs: 22 ASCII letters or digits that start with `DE`.
pub open spec fn valid_iban(s: Seq<char>) -> bool {
    s.len() == 22 && has_prefix(s, "DE"@) && all_alnum(s)
}

/// An account as a value.
pub struct Connection {
    pub iban: Seq<char>,
    pub bic: Seq<char>,
}

pub open spec fn valid_connection(c: Connection) -> bool {
    valid_iban(c.iban) && c.bic.len() > 0
}

/// How std writes a text for debugging: in quotes, with escapes.
pub uninterp spec fn std_debug_text(s: Seq<char>) -> Seq<char>;

/// The account that two texts state, or why they state none.
pub open spec fn account_of(iban: Seq<char>, bic: Seq<char>) -> core::result::Result<
    Connection,
    Failure,
> {
    if !valid_iban(normalized(iban)) {
        Err(
            Failure::Dialog(
                "IBAN must be a 22-character German IBAN, got "@ + std_debug_text(normalized(iban)),
            ),
        )
    } else if bic.len() == 0 {
        Err(
            Failure::Dialog(
                "BIC must not be empty. Please set the BIC in the account settings."@,
            ),
        )
    } else {
        Ok(Connection { iban: normalized(iban), bic })
    }
}

// ---- Accounts ----

/// A bank account: a normalised German IBAN of 22 characters and a BIC that is
/// not empty. Every segment builder can address it in the international and in
/// the national form.
#[derive(Debug)]
pub struct Account {
    iban: Iban,
    bic: Bic,
}

impl View for Account {
    type V = Connection;

    closed spec fn view(&self) -> Connection {
        Connection { iban: self.iban@, bic: self.bic@ }
    }
}

impl Clone for Account {
    fn clone(&self) -> (r: Account)
        ensures
            r@ == self@,
    {
        proof {
            use_type_invariant(self);
        }
        Account { iban: self.iban.clone(), bic: self.bic.clone() }
    }
}

/// A text as it is written for debugging.
///
/// Trusted: the `Debug` form of `str` in std depends on the text alone. ASCII
/// letters and digits stand in it as they are, between double quotes; how other
/// characters are escaped has only a name here.
#[verifier::external_body]
pub(crate) fn debug_text(s: &str) -> (r: String)
    ensures
        r@ == std_debug_text(s@),
        all_alnum(s@) ==> r@ == seq!['"'] + s@ + seq!['"'],
{
    format!("{:?}", s)
}

fn normalize(s: &str) -> (r: String)
    ensures
        r@ == normalized(s@),
{
    let cs: Vec<char> = chars_of(s);
    let mut r = String::new();
    let mut i: usize = 0;
    assert(r@ =~= normalized(s@.take(0)));
    while i < cs.len()
        invariant
            i <= cs@.len(),
            cs@ == s@,
            r@ == normalized(s@.take(i as int)),
        decreases cs@.len() - i,
    {
        proof {
            assert(s@.take(i + 1).drop_last() =~= s@.take(i as int));
            assert(s@.take(i + 1).last() == s@[i as int]);
        }
        if !space_char(cs[i]) {
            push_char(&mut r, to_upper_char(cs[i]));
        }
        i += 1;
    }
    assert(s@.take(i as int) =~= s@);
    r
}

impl Account {
    #[verifier::type_invariant]
    spec fn valid(self) -> bool {
        valid_connection(self@)
    }

    /// Creates an account. White space in the IBAN is dropped and its letters
    /// are capitalised first, so that a printed IBAN is accepted as it stands.
    pub fn new(iban: &str, bic: &str) -> (res: Result<Account>)
        ensures
            match res {
                Ok(a) => account_of(iban@, bic@) == core::result::Result::<_, Failure>::Ok(a@),
                Err(e) => account_of(iban@, bic@) == core::result::Result::<
                    Connection,
                    Failure,
                >::Err(e@),
            },
    {
        let iban = normalize(iban);
        let cs: Vec<char> = chars_of(iban.as_str());
        assert(cs@.skip(0) =~= cs@);
        if !(cs.len() == 22 && text_has_prefix(iban.as_str(), "DE") && chars_all_alnum(&cs, 0)) {
            let mut message = "IBAN must be a 22-character German IBAN, got ".to_string();
            message.append(debug_text(iban.as_str()).as_str());
            return Err(FinTSError::Dialog(message));
        }
        if bic.is_empty() {
            return Err(
                FinTSError::Dialog(
                    "BIC must not be empty. Please set the BIC in the account settings.".to_string(),
                ),
            );
        }
        Ok(Account { iban: Iban::new(iban.as_str()), bic: Bic::new(bic) })
    }

    pub fn iban(&self) -> (s: &str)
        ensures
            s@ == self@.iban,
            valid_iban(s@),
    {
        proof {
            use_type_invariant(self);
        }
        self.iban.as_str()
    }

    pub fn bic(&self) -> (s: &str)
        ensures
            s@ == self@.bic,
            s@.len() > 0,
    {
        proof {
            use_type_invariant(self);
        }
        self.bic.as_str()
    }
}

// ---- Laws ----

/// Letters and digits have one byte each.
pub proof fn lemma_alnum_bytes(s: Seq<char>)
    requires
        all_alnum(s),
    ensures
        byte_len(s) == s.len(),
{
    assert forall|i: int| 0 <= i < s.len() implies '\0' <= #[trigger] s[i] <= '\u{7f}' by {
        assert(is_alnum(s[i]));
    }
    is_ascii_chars_encode_utf8(s);
}

/// Every account can be addressed in every segment version, internationally or
/// nationally.
pub proof fn law_account_addressable(version: int, kti_min_version: int, c: Connection)
    requires
        valid_connection(c),
    ensures
        addressable(version, kti_min_version, c.iban, c.bic),
        german_iban(c.iban),
{
    lemma_alnum_bytes(c.iban);
}

/// A German IBAN is its country code, two check digits, the Bankleitzahl and the
/// account number.
pub proof fn law_iban_parts(iban: Seq<char>)
    requires
        valid_iban(iban),
    ensures
        iban == "DE"@ + iban.subrange(2, 4) + iban_blz(iban) + iban_account(iban),
        iban_blz(iban).len() == 8,
        iban_account(iban).len() == 10,
{
    reveal_strlit("DE");
    assert(iban.take(2) =~= "DE"@);
    assert(iban =~= iban.take(2) + iban.subrange(2, 4) + iban_blz(iban) + iban_account(iban));
}

proof fn lemma_upper_char(c: char)
    ensures
        upper_char(upper_char(c)) == upper_char(c),
        is_space(upper_char(c)) == is_space(c),
{
    if is_lower(c) {
        let u = upper_char(c);
        assert(u as u32 == c as u32 - 32);
    }
}

/// Normalising twice is normalising once, so what an account holds as its IBAN
/// makes the same account again.
pub proof fn law_normalized_once(s: Seq<char>)
    ensures
        normalized(normalized(s)) == normalized(s),
    decreases s.len(),
{
    if s.len() == 0 {
    } else if is_space(s.last()) {
        law_normalized_once(s.drop_last());
    } else {
        law_normalized_once(s.drop_last());
        lemma_upper_char(s.last());
        let t = normalized(s);
        assert(t.drop_last() =~= normalized(s.drop_last()));
        assert(t.last() == upper_char(s.last()));
    }
}

/// Joined texts are normalised one by one.
pub proof fn lemma_normalized_add(a: Seq<char>, b: Seq<char>)
    ensures
        normalized(a + b) == normalized(a) + normalized(b),
    decreases b.len(),
{
    if b.len() == 0 {
        assert(a + b =~= a);
        assert(normalized(a) + normalized(b) =~= normalized(a));
    } else {
        assert((a + b).drop_last() =~= a + b.drop_last());
        assert((a + b).last() == b.last());
        lemma_normalized_add(a, b.drop_last());
        assert(normalized(a + b) =~= normalized(a) + normalized(b));
    }
}

/// White space in an IBAN does not matter, wherever it stands.
pub proof fn law_space_ignored(a: Seq<char>, space: char, b: Seq<char>, bic: Seq<char>)
    requires
        is_space(space),
    ensures
        account_of(a + seq![space] + b, bic) == account_of(a + b, bic),
{
    lemma_normalized_add(a + seq![space], b);
    lemma_normalized_add(a, seq![space]);
    lemma_normalized_add(a, b);
    assert(seq![space].drop_last() =~= Seq::<char>::empty());
    assert(normalized(seq![space].drop_last()) =~= Seq::<char>::empty());
    assert(normalized(seq![space]) =~= Seq::<char>::empty());
    assert(normalized(a) + Seq::<char>::empty() =~= normalized(a));
}

/// The case of ASCII letters in an IBAN does not matter.
pub proof fn law_case_ignored(a: Seq<char>, c: char, b: Seq<char>, bic: Seq<char>)
    ensures
        account_of(a + seq![upper_char(c)] + b, bic) == account_of(a + seq![c] + b, bic),
{
    lemma_upper_char(c);
    lemma_normalized_add(a + seq![upper_char(c)], b);
    lemma_normalized_add(a, seq![upper_char(c)]);
    lemma_normalized_add(a + seq![c], b);
    lemma_normalized_add(a, seq![c]);
    assert(seq![c].drop_last() =~= Seq::<char>::empty());
    assert(seq![upper_char(c)].drop_last() =~= Seq::<char>::empty());
    assert(normalized(seq![c]) == normalized(seq![upper_char(c)]));
}

/// The IBAN and BIC of an account make that account.
pub proof fn law_account_again(iban: Seq<char>, bic: Seq<char>)
    requires
        account_of(iban, bic) is Ok,
    ensures
        ({
            let c = account_of(iban, bic)->Ok_0;
            valid_connection(c) && account_of(c.iban, c.bic) == account_of(iban, bic)
        }),
{
    law_normalized_once(iban);
}

/// An upper-case IBAN is kept as it is, and so is every BIC.
pub proof fn law_account_kept(iban: Seq<char>, bic: Seq<char>)
    requires
        iban.len() == 22,
        iban[0] == 'D' && iban[1] == 'E',
        forall|i: int|
            0 <= i < iban.len() ==> 'A' <= #[trigger] iban[i] <= 'Z' || '0' <= iban[i] <= '9',
    ensures
        bic.len() > 0 ==> account_of(iban, bic) == Ok::<Connection, Failure>(
            Connection { iban, bic },
        ),
        bic.len() == 0 ==> account_of(iban, bic) is Err,
{
    lemma_upper_kept(iban);
    reveal_strlit("DE");
    assert(iban.take(2) =~= "DE"@);
    assert forall|i: int| 0 <= i < iban.len() implies is_alnum(#[trigger] iban[i]) by {}
}

/// An account holds the BIC that it was made with and an IBAN of 22 letters and
/// digits, without white space and lower case.
pub proof fn law_account_held(iban: Seq<char>, bic: Seq<char>)
    ensures
        account_of(iban, bic) matches Ok(c) ==> {
            &&& c.bic == bic && bic.len() > 0
            &&& c.iban.len() == 22 && c.iban[0] == 'D' && c.iban[1] == 'E'
            &&& forall|i: int|
                0 <= i < c.iban.len() ==> 'A' <= #[trigger] c.iban[i] <= 'Z' || '0' <= c.iban[i]
                    <= '9'
        },
{
    if let Ok(c) = account_of(iban, bic) {
        reveal_strlit("DE");
        assert(c.iban.take(2)[0] == c.iban[0] && c.iban.take(2)[1] == c.iban[1]);
        lemma_no_lower(iban);
        assert forall|i: int| 0 <= i < c.iban.len() implies 'A' <= #[trigger] c.iban[i] <= 'Z' || '0'
            <= c.iban[i] <= '9' by {
            assert(is_alnum(c.iban[i]) && !is_lower(c.iban[i]));
        }
    }
}

proof fn lemma_upper_kept(s: Seq<char>)
    requires
        forall|i: int| 0 <= i < s.len() ==> 'A' <= #[trigger] s[i] <= 'Z' || '0' <= s[i] <= '9',
    ensures
        normalized(s) == s,
    decreases s.len(),
{
    if s.len() > 0 {
        let c = s[s.len() - 1];
        assert('A' <= c <= 'Z' || '0' <= c <= '9');
        assert(!is_space(c) && upper_char(c) == c);
        lemma_upper_kept(s.drop_last());
        assert(s.drop_last().push(s.last()) =~= s);
    }
}

proof fn lemma_no_lower(s: Seq<char>)
    ensures
        forall|i: int| 0 <= i < normalized(s).len() ==> !is_lower(#[trigger] normalized(s)[i]),
    decreases s.len(),
{
    if s.len() > 0 {
        lemma_no_lower(s.drop_last());
        let c = s.last();
        if is_lower(c) {
            assert(upper_char(c) as u32 == c as u32 - 32);
        }
        assert(!is_lower(upper_char(c)));
        let before = normalized(s.drop_last());
        let all = normalized(s);
        assert forall|i: int| 0 <= i < all.len() implies !is_lower(#[trigger] all[i]) by {
            if i < before.len() {
                assert(all[i] == before[i]);
            }
        }
    }
}

} // verus!
