use vstd::prelude::*;

use backhand::BackhandError;

use crate::compressor::leak;
use crate::rc4::{advance, apply, initial, RC4};

verus! {

/// Deciphers buffers in place, each with a keystream that starts afresh from the key,
/// optionally some bytes into it.
#[derive(Copy, Clone)]
pub struct CustomTransformer {
    key: [u8; 16],
}

impl View for CustomTransformer {
    type V = Seq<u8>;

    closed spec fn view(&self) -> Seq<u8> {
        self.key@
    }
}

/// The keystream offset at which a buffer starts: `skip` bytes, or none.
pub open spec fn skip_len(skip: Option<usize>) -> nat {
    match skip {
        Some(n) => n as nat,
        None => 0,
    }
}

impl CustomTransformer {
    /// A transformer for buffers enciphered with `key`.
    pub fn new(key: [u8; 16]) -> (r: Self)
        ensures
            r@ == key@,
    {
        CustomTransformer { key }
    }

    /// A transformer for buffers enciphered with `key` that lives as long as the program.
    pub fn new_static(key: [u8; 16]) -> (r: &'static Self)
        ensures
            r@ == key@,
    {
        leak(Box::new(CustomTransformer { key }))
    }

    /// Deciphers `buffer` in place with a fresh engine, after discarding `skip` keystream
    /// bytes when one is given.
    pub fn from(&self, buffer: &mut [u8], skip: Option<usize>) -> (r: Result<(), BackhandError>)
        ensures
            r is Ok,
            final(buffer)@ == apply(advance(initial(self@), skip_len(skip)), old(buffer)@),
    {
        let mut rc4 = RC4::new(&self.key);
        if let Some(n) = skip {
            let mut discard: Vec<u8> = vec![0u8; n];
            rc4.process(discard.as_mut_slice());
        }
        rc4.process(buffer);
        Ok(())
    }
}

} // verus!
