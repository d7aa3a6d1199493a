//! Embedder: wraps artifact bytes into a self-contained inline HTML embed.
//!
//! The artifact bytes are base64-encoded into a `data:` URI with an explicit
//! MIME type, and the URI is wrapped in an `<embed>` tag with a display-width
//! hint. The operation is total: it succeeds for every byte sequence.

use vstd::prelude::*;

verus! {

/// The bytes of `<embed src="data:text/html;base64,`.
pub open spec fn embed_prefix() -> Seq<u8> {
    seq![
        60u8, 101u8, 109u8, 98u8, 101u8, 100u8, 32u8, 115u8, 114u8, 99u8, 61u8, 34u8,
        100u8, 97u8, 116u8, 97u8, 58u8, 116u8, 101u8, 120u8, 116u8, 47u8, 104u8, 116u8,
        109u8, 108u8, 59u8, 98u8, 97u8, 115u8, 101u8, 54u8, 52u8, 44u8,
    ]
}

/// The bytes of `" width="100%"></embed>`.
pub open spec fn embed_suffix() -> Seq<u8> {
    seq![
        34u8, 32u8, 119u8, 105u8, 100u8, 116u8, 104u8, 61u8, 34u8, 49u8, 48u8, 48u8,
        37u8, 34u8, 62u8, 60u8, 47u8, 101u8, 109u8, 98u8, 101u8, 100u8, 62u8,
    ]
}

/// The embed markup over artifact bytes `b`:
/// `<embed src="data:text/html;base64,` + base64(b) + `" width="100%"></embed>`.
pub open spec fn embed_spec(b: Seq<u8>) -> Seq<u8> {
    embed_prefix() + crate::b64::encode_spec(b) + embed_suffix()
}

/// Build the inline embed markup for an artifact. Total and deterministic.
pub fn embed_markup(artifact: &Vec<u8>) -> (r: Vec<u8>)
    ensures
        r@ == embed_spec(artifact@),
{
    let mut r: Vec<u8> = Vec::new();
    r.push(60);
    r.push(101);
    r.push(109);
    r.push(98);
    r.push(101);
    r.push(100);
    r.push(32);
    r.push(115);
    r.push(114);
    r.push(99);
    r.push(61);
    r.push(34);
    r.push(100);
    r.push(97);
    r.push(116);
    r.push(97);
    r.push(58);
    r.push(116);
    r.push(101);
    r.push(120);
    r.push(116);
    r.push(47);
    r.push(104);
    r.push(116);
    r.push(109);
    r.push(108);
    r.push(59);
    r.push(98);
    r.push(97);
    r.push(115);
    r.push(101);
    r.push(54);
    r.push(52);
    r.push(44);
    proof {
        assert(r@ =~= embed_prefix());
    }
    let mut enc = crate::b64::base64_encode(artifact);
    r.append(&mut enc);
    proof {
        assert(r@ == embed_prefix() + crate::b64::encode_spec(artifact@));
    }
    r.push(34);
    r.push(32);
    r.push(119);
    r.push(105);
    r.push(100);
    r.push(116);
    r.push(104);
    r.push(61);
    r.push(34);
    r.push(49);
    r.push(48);
    r.push(48);
    r.push(37);
    r.push(34);
    r.push(62);
    r.push(60);
    r.push(47);
    r.push(101);
    r.push(109);
    r.push(98);
    r.push(101);
    r.push(100);
    r.push(62);
    proof {
        assert(r@ =~= embed_spec(artifact@));
    }
    r
}

} // verus!
