use vstd::prelude::*;

use crate::errors::ChannelError;

verus! {

/// One character of the transport's textual identifier alphabet:
/// the letters `A` through `Z` and the digits `0` through `9`.
pub open spec fn is_id_char(c: char) -> bool {
    (48 <= c as u32 && c as u32 <= 57) || (65 <= c as u32 && c as u32 <= 90)
}

/// A valid identifier component: non-empty, every character in the alphabet.
pub open spec fn valid_id(s: Seq<char>) -> bool {
    s.len() > 0 && forall|i: int| 0 <= i < s.len() ==> is_id_char(#[trigger] s[i])
}

/// Checks a textual component against the identifier grammar.
pub fn is_valid_id(s: &str) -> (r: bool)
    ensures
        r == valid_id(s@),
{
    let len = s.unicode_len();
    if len == 0 {
        return false;
    }
    let mut i: usize = 0;
    while i < len
        invariant
            len == s@.len(),
            i <= len,
            forall|j: int| 0 <= j < i ==> is_id_char(#[trigger] s@[j]),
        decreases len - i,
    {
        let c = s.get_char(i);
        let u = c as u32;
        if !((48 <= u && u <= 57) || (65 <= u && u <= 90)) {
            return false;
        }
        i += 1;
    }
    true
}

/// The mathematical value of an [`Address`]: its two identifier components.
pub ghost struct AddressView {
    pub appinst: Seq<char>,
    pub msgid: Seq<char>,
}

/// Where a message sits in the transport: the channel's fixed instance
/// identifier plus the per-message identifier.
pub struct Address {
    pub appinst: String,
    pub msgid: String,
}

impl View for Address {
    type V = AddressView;

    open spec fn view(&self) -> AddressView {
        AddressView { appinst: self.appinst@, msgid: self.msgid@ }
    }
}

impl Clone for Address {
    fn clone(&self) -> (r: Address)
        ensures
            r@ == self@,
    {
        Address { appinst: self.appinst.clone(), msgid: self.msgid.clone() }
    }
}

/// Both components of the address lie in the identifier grammar.
pub open spec fn valid_address(a: AddressView) -> bool {
    valid_id(a.appinst) && valid_id(a.msgid)
}

/// What [`parse`] accepts and yields, stated over character sequences.
pub open spec fn spec_parse(appinst: Seq<char>, msgid: Seq<char>) -> Option<AddressView> {
    if valid_id(appinst) && valid_id(msgid) {
        Some(AddressView { appinst, msgid })
    } else {
        None
    }
}

/// Reads an address out of its two textual components, refusing any
/// component that strays from the identifier grammar.
pub fn parse(appinst: &str, msgid: &str) -> (r: Result<Address, ChannelError>)
    ensures
        r is Ok <==> spec_parse(appinst@, msgid@) is Some,
        r is Ok ==> r->Ok_0@ == spec_parse(appinst@, msgid@)->Some_0,
        r is Err ==> r->Err_0 == ChannelError::InvalidLink,
{
    if is_valid_id(appinst) && is_valid_id(msgid) {
        Ok(Address { appinst: appinst.to_owned(), msgid: msgid.to_owned() })
    } else {
        Err(ChannelError::InvalidLink)
    }
}

/// Renders an address back into its two textual components, losslessly.
pub fn format(addr: &Address) -> (r: (String, String))
    ensures
        r.0@ == addr@.appinst,
        r.1@ == addr@.msgid,
{
    (addr.appinst.clone(), addr.msgid.clone())
}

/// Parsing the formatted components of any valid address gives that
/// address back: the textual form loses nothing.
pub proof fn lemma_address_round_trip(a: AddressView)
    requires
        valid_address(a),
    ensures
        spec_parse(a.appinst, a.msgid) == Some(a),
{
}

} // verus!
