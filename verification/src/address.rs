//! Addresses: the mixnet address of a peer, and the transport address
//! `/nym/<recipient>` that carries it.

use vstd::prelude::*;
use vstd::string::*;
use crate::error::Error;

verus! {

/// Whether a text is the base58 form of a mixnet address, as
/// `nym_sphinx_addressing::clients::Recipient` reads it.
pub uninterp spec fn is_recipient(text: Seq<char>) -> bool;

/// Calls `Recipient::try_from_base58_string` of `nym_sphinx_addressing`, which
/// is what `Recipient::from_str` does, and tells whether it accepted the text. The contract only gives that answer its name: the same text always
/// gets the same answer.
#[verifier::external_body]
fn recipient_parses(text: &str) -> (ok: bool)
    ensures
        ok == is_recipient(text@),
{
    nym_sphinx_addressing::clients::Recipient::try_from_base58_string(text).is_ok()
}

/// The mixnet address of a peer, in its text form.
#[derive(Debug, Clone, PartialEq, Eq)]
pub struct Recipient {
    text: String,
}

impl View for Recipient {
    type V = Seq<char>;

    closed spec fn view(&self) -> Seq<char> {
        self.text@
    }
}

impl Recipient {
    /// Reads a mixnet address. A text that is not one is refused.
    pub fn from_str(text: &str) -> (r: Result<Recipient, Error>)
        ensures
            match r {
                Ok(a) => is_recipient(text@) && a@ == text@,
                Err(e) => !is_recipient(text@) && e == Error::InvalidRecipientBytes,
            },
    {
        if recipient_parses(text) {
            Ok(Recipient { text: text.to_owned() })
        } else {
            Err(Error::InvalidRecipientBytes)
        }
    }

    /// The text form of the address.
    pub fn as_str(&self) -> (r: &str)
        ensures
            r@ == self@,
    {
        self.text.as_str()
    }

    /// A second value that holds the same address.
    pub fn duplicate(&self) -> (r: Recipient)
        ensures
            r@ == self@,
    {
        Recipient { text: self.text.clone() }
    }
}

/// A transport address, in its text form.
#[derive(Debug, Clone, PartialEq, Eq)]
pub struct Multiaddr {
    text: String,
}

impl View for Multiaddr {
    type V = Seq<char>;

    closed spec fn view(&self) -> Seq<char> {
        self.text@
    }
}

impl Multiaddr {
    /// The address with the given text.
    pub fn from_text(text: &str) -> (r: Multiaddr)
        ensures
            r@ == text@,
    {
        Multiaddr { text: text.to_owned() }
    }

    /// The text of the address.
    pub fn as_str(&self) -> (r: &str)
        ensures
            r@ == self@,
    {
        self.text.as_str()
    }

    /// A second value that holds the same address.
    pub fn duplicate(&self) -> (r: Multiaddr)
        ensures
            r@ == self@,
    {
        Multiaddr { text: self.text.clone() }
    }
}

/// The text that introduces the component of a transport address that holds a
/// mixnet address.
pub open spec fn nym_prefix() -> Seq<char> {
    seq!['/', 'n', 'y', 'm', '/']
}

/// The place of the last `/` in a text, or -1 where it holds none.
pub open spec fn last_slash(s: Seq<char>) -> int
    decreases s.len(),
{
    if s.len() == 0 {
        -1
    } else if s.last() == '/' {
        s.len() - 1
    } else {
        last_slash(s.drop_last())
    }
}

/// What the final component of a transport address holds, where that
/// component is tagged `nym`. Components before it are not looked at.
pub open spec fn nym_component(s: Seq<char>) -> Option<Seq<char>> {
    let k = last_slash(s);
    if k >= 4 && s.subrange(k - 4, k + 1) == nym_prefix() {
        Some(s.subrange(k + 1, s.len() as int))
    } else {
        None
    }
}

/// The last `/` stands at `k` where `k` holds one and nothing behind it does.
pub proof fn lemma_last_slash(s: Seq<char>, k: int)
    requires
        -1 <= k < s.len(),
        k >= 0 ==> s[k] == '/',
        forall|j: int| k < j < s.len() ==> s[j] != '/',
    ensures
        last_slash(s) == k,
    decreases s.len(),
{
    if s.len() > 0 && k < s.len() - 1 {
        lemma_last_slash(s.drop_last(), k);
    }
}

/// The transport address of a mixnet address: the single component
/// `/nym/<recipient>`.
pub fn nym_address_to_multiaddress(addr: &Recipient) -> (r: Multiaddr)
    ensures
        r@ == nym_prefix() + addr@,
{
    proof {
        reveal_strlit("/nym/");
        assert("/nym/"@ =~= nym_prefix());
    }
    let text = "/nym/".to_owned().concat(addr.as_str());
    Multiaddr { text }
}

/// The mixnet address that a transport address ends in. The address must end
/// in a `nym` component, and that component must hold a mixnet address.
pub fn multiaddress_to_nym_address(multiaddr: &Multiaddr) -> (r: Result<Recipient, Error>)
    ensures
        match r {
            Ok(a) => nym_component(multiaddr@) == Some(a@) && is_recipient(a@),
            Err(e) => match nym_component(multiaddr@) {
                None => e == Error::InvalidProtocolForMultiaddr,
                Some(v) => !is_recipient(v) && e == Error::InvalidRecipientBytes,
            },
        },
{
    let s = multiaddr.as_str();
    let n = s.unicode_len();
    let mut k: usize = n;
    while k > 0 && s.get_char(k - 1) != '/'
        invariant
            k <= n,
            n == s@.len(),
            forall|j: int| k <= j < n ==> s@[j] != '/',
        decreases k,
    {
        k = k - 1;
    }
    proof {
        lemma_last_slash(s@, k as int - 1);
    }
    if k < 5 {
        return Err(Error::InvalidProtocolForMultiaddr);
    }
    if s.get_char(k - 5) != '/' || s.get_char(k - 4) != 'n' || s.get_char(k - 3) != 'y'
        || s.get_char(k - 2) != 'm' {
        assert(s@.subrange(k - 5, k as int)[0] == s@[k - 5]);
        assert(s@.subrange(k - 5, k as int)[1] == s@[k - 4]);
        assert(s@.subrange(k - 5, k as int)[2] == s@[k - 3]);
        assert(s@.subrange(k - 5, k as int)[3] == s@[k - 2]);
        return Err(Error::InvalidProtocolForMultiaddr);
    }
    assert(s@.subrange(k - 5, k as int) =~= nym_prefix());
    let value = s.substring_char(k, n);
    Recipient::from_str(value)
}

/// A transport address made of a mixnet address leads back to that address,
/// as long as the address holds no `/`.
pub proof fn lemma_address_round_trip(recipient: Seq<char>)
    requires
        forall|j: int| 0 <= j < recipient.len() ==> recipient[j] != '/',
    ensures
        nym_component(nym_prefix() + recipient) == Some(recipient),
{
    let s = nym_prefix() + recipient;
    assert forall|j: int| 4 < j < s.len() implies s[j] != '/' by {
        assert(s[j] == recipient[j - 5]);
    }
    lemma_last_slash(s, 4);
    assert(s.subrange(0, 5) =~= nym_prefix());
    assert(s.subrange(5, s.len() as int) =~= recipient);
}

} // verus!
