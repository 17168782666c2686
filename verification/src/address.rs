//! Contract addresses in their textual form.

use crate::codec::{decode_hex, is_hex_text};
use vstd::prelude::*;
use vstd::utf8::encode_utf8;

verus! {

/// The number of bytes in the text of an address: `0x` and forty digits.
pub const ADDRESS_LENGTH: usize = 42;

/// Why a text is not an address.
#[derive(Debug, Clone, Copy, PartialEq, Eq)]
pub enum AddressError {
    /// The text is not 42 bytes long; the length it has is given.
    Length(usize),
    /// The text does not start with `0x`.
    Prefix,
    /// What follows `0x` is not hexadecimal.
    Hex,
}

/// The verdict on the bytes of a text: the length is looked at first, then
/// the prefix, then the digits.
pub open spec fn address_check(text: Seq<u8>) -> Result<(), AddressError> {
    if text.len() != ADDRESS_LENGTH {
        Err(AddressError::Length(text.len() as usize))
    } else if !(text[0] == 0x30 && text[1] == 0x78) {
        Err(AddressError::Prefix)
    } else if !is_hex_text(text.skip(2)) {
        Err(AddressError::Hex)
    } else {
        Ok(())
    }
}

/// `text` is the text of an address.
pub open spec fn is_address(text: Seq<char>) -> bool {
    address_check(encode_utf8(text)) is Ok
}

/// An address that has passed validation.
#[derive(Debug)]
pub struct Address {
    inner: String,
}

impl View for Address {
    type V = Seq<char>;

    closed spec fn view(&self) -> Seq<char> {
        self.inner@
    }
}

impl Address {
    #[verifier::type_invariant]
    spec fn valid(self) -> bool {
        is_address(self.inner@)
    }

    /// Checks that `address` is `0x` followed by forty hexadecimal digits.
    pub fn validate(address: &str) -> (r: Result<(), AddressError>)
        ensures
            r == address_check(encode_utf8(address@)),
    {
        let bytes = address.as_bytes();
        let n = bytes.len();
        if n != ADDRESS_LENGTH {
            return Err(AddressError::Length(n));
        }
        if !(bytes[0] == 0x30 && bytes[1] == 0x78) {
            return Err(AddressError::Prefix);
        }
        assert(bytes@.subrange(2, n as int) =~= bytes@.skip(2));
        if decode_hex(vstd::slice::slice_subrange(bytes, 2, n)).is_err() {
            return Err(AddressError::Hex);
        }
        Ok(())
    }

    /// Makes an address of `address` if it is valid, and says why not
    /// otherwise.
    pub fn try_from(address: String) -> (r: Result<Address, AddressError>)
        ensures
            match r {
                Ok(made) => is_address(address@) && made@ == address@,
                Err(why) => address_check(encode_utf8(address@)) == Err::<(), AddressError>(why),
            },
    {
        match Address::validate(address.as_str()) {
            Ok(()) => Ok(Address { inner: address }),
            Err(why) => Err(why),
        }
    }

    /// The text of the address.
    pub fn as_str(&self) -> (r: &str)
        ensures
            r@ == self@,
            is_address(r@),
    {
        proof {
            use_type_invariant(self);
        }
        self.inner.as_str()
    }
}

impl core::ops::Deref for Address {
    type Target = String;

    /// The text of the address.
    fn deref(&self) -> (r: &String)
        ensures
            r@ == self@,
            is_address(r@),
    {
        proof {
            use_type_invariant(self);
        }
        &self.inner
    }
}

} // verus!
