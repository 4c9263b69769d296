//! The author line of a quote image.

use vstd::prelude::*;
use crate::text::{decimal, write_decimal};

verus! {

/// `n` zeros.
pub open spec fn zeros(n: nat) -> Seq<char> {
    Seq::new(n, |_i: int| '0')
}

/// A legacy discriminator, zero-padded to four digits.
pub open spec fn padded_discriminator(d: u16) -> Seq<char> {
    let t = decimal(d as nat);
    if t.len() < 4 {
        zeros((4 - t.len()) as nat) + t
    } else {
        t
    }
}

/// How a quote names its author: the old `name#0000` tag for accounts that
/// still have a discriminator (mostly bots), else `@name`.
pub open spec fn username_text(name: Seq<char>, discriminator: Option<u16>) -> Seq<char> {
    match discriminator {
        Some(d) => name + "#"@ + padded_discriminator(d),
        None => "@"@ + name,
    }
}

/// Names the author of a quoted message.
pub fn create_username(name: &str, discriminator: Option<u16>) -> (r: String)
    ensures
        r@ == username_text(name@, discriminator),
{
    match discriminator {
        Some(d) => {
            let mut out = String::from_str(name);
            out.append("#");
            let ghost before = out@;
            let digits = crate::text::u64_text(d as u64);
            let len = digits.unicode_len();
            if len < 4 {
                let mut k: usize = 0;
                while k < 4 - len
                    invariant
                        len < 4,
                        k <= 4 - len,
                        out@ == before + zeros(k as nat),
                    decreases 4 - len - k,
                {
                    crate::text::push_char(&mut out, '0');
                    assert(zeros((k + 1) as nat) =~= zeros(k as nat).push('0'));
                    k = k + 1;
                }
            }
            out.append(digits.as_str());
            assert(out@ =~= username_text(name@, discriminator));
            out
        },
        None => {
            let mut out = String::from_str("@");
            out.append(name);
            out
        },
    }
}

/// The signature under a quote: `- ` and the author's display name.
pub fn quote_signature(display_name: &str) -> (r: String)
    ensures
        r@ == "- "@ + display_name@,
{
    let mut out = String::from_str("- ");
    out.append(display_name);
    out
}

} // verus!
