use vstd::prelude::*;

verus! {

/// A public key in its binary form.
#[derive(Debug, Clone, PartialEq, Eq, PartialOrd, Ord, Hash)]
pub struct PublicKeyBinary(pub Vec<u8>);

/// The Base58Check text of `data`: Base58 of the bytes followed by their
/// four-byte double-SHA-256 checksum.
pub uninterp spec fn base58_check_of(data: Seq<u8>) -> Seq<char>;

/// Relies on bs58's `encode(..).with_check().into_string()`: the text depends
/// on the bytes alone.
#[verifier::external_body]
fn base58_check(data: &Vec<u8>) -> (r: String)
    ensures
        r@ == base58_check_of(data@),
{
    bs58::encode(data).with_check().into_string()
}

impl From<Vec<u8>> for PublicKeyBinary {
    fn from(value: Vec<u8>) -> (r: PublicKeyBinary) {
        PublicKeyBinary(value)
    }
}

impl vstd::std_specs::convert::FromSpecImpl<Vec<u8>> for PublicKeyBinary {
    open spec fn obeys_from_spec() -> bool {
        true
    }

    open spec fn from_spec(v: Vec<u8>) -> PublicKeyBinary {
        PublicKeyBinary(v)
    }
}

/// The version byte, then the key's bytes.
pub open spec fn versioned(key: Seq<u8>) -> Seq<u8> {
    seq![0u8] + key
}

impl PublicKeyBinary {
    /// The key's text: Base58Check of a zero version byte followed by the
    /// key's bytes.
    pub fn to_string(&self) -> (r: String)
        ensures
            r@ == base58_check_of(versioned(self.0@)),
    {
        let mut data: Vec<u8> = Vec::new();
        data.push(0u8);
        let mut i: usize = 0;
        while i < self.0.len()
            invariant
                i <= self.0@.len(),
                data@ == versioned(self.0@.subrange(0, i as int)),
            decreases self.0@.len() - i,
        {
            data.push(self.0[i]);
            i = i + 1;
            assert(data@ =~= versioned(self.0@.subrange(0, i as int)));
        }
        assert(self.0@.subrange(0, self.0@.len() as int) =~= self.0@);
        base58_check(&data)
    }
}

} // verus!
