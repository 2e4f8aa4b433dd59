//! Prompt normalization: lower-case the ASCII letters and collapse runs of
//! whitespace to single spaces, with no leading or trailing space. The
//! SHA-256 hash of the normalized bytes is the prompt's binding identity.

use vstd::prelude::*;

use crate::errors::ReplayError;

verus! {

/// Whether `b` is an ASCII whitespace byte.
pub open spec fn is_ascii_ws(b: u8) -> bool {
    b == 32 || b == 9 || b == 10 || b == 12 || b == 13
}

/// The lower-case form of an ASCII byte: letters gain 32, the rest stay.
pub open spec fn lower_byte(b: u8) -> u8 {
    if 65 <= b && b <= 90 {
        (b + 32) as u8
    } else {
        b
    }
}

/// The normalization automaton after reading `s`: the output built so far
/// and whether the reader stands in whitespace (initially true, so leading
/// whitespace emits nothing).
pub open spec fn norm_state(s: Seq<u8>) -> (Seq<u8>, bool)
    decreases s.len(),
{
    if s.len() == 0 {
        (Seq::<u8>::empty(), true)
    } else {
        let prev = norm_state(s.drop_last());
        let b = s.last();
        if is_ascii_ws(b) {
            if prev.1 {
                (prev.0, true)
            } else {
                (prev.0.push(32), true)
            }
        } else {
            (prev.0.push(lower_byte(b)), false)
        }
    }
}

/// The normalized form of an ASCII byte sequence: the automaton's output
/// with a trailing space, if any, removed.
pub open spec fn spec_normalize(s: Seq<u8>) -> Seq<u8> {
    let run = norm_state(s).0;
    if run.len() > 0 && run.last() == 32 {
        run.drop_last()
    } else {
        run
    }
}

/// The bytes denoted by a sequence of ASCII characters.
pub open spec fn char_bytes(s: Seq<char>) -> Seq<u8> {
    Seq::new(s.len(), |i: int| s[i] as u8)
}

/// Normalizes a prompt: fails with `PromptNotAscii`, and only then, if the
/// prompt holds a non-ASCII character; otherwise lower-cases letters and
/// collapses whitespace runs to single inner spaces.
pub fn normalize_prompt(input: &str) -> (r: Result<Vec<u8>, ReplayError>)
    ensures
        match r {
            Ok(v) => input.is_ascii() && v@ == spec_normalize(char_bytes(input@)),
            Err(e) => e == ReplayError::PromptNotAscii && !input.is_ascii(),
        },
{
    if !input.is_ascii() {
        return Err(ReplayError::PromptNotAscii);
    }
    proof {
        vstd::string::is_ascii_spec_bytes(input);
    }
    let bytes = input.as_bytes();
    assert(bytes@ =~= char_bytes(input@));
    let n = bytes.len();
    let mut out: Vec<u8> = Vec::new();
    let mut in_space = true;
    let mut i: usize = 0;
    while i < n
        invariant
            i <= n,
            n == bytes@.len(),
            (out@, in_space) == norm_state(bytes@.take(i as int)),
        decreases n - i,
    {
        let b = bytes[i];
        assert(bytes@.take(i + 1).drop_last() =~= bytes@.take(i as int));
        assert(bytes@.take(i + 1).last() == b);
        if b == 32 || b == 9 || b == 10 || b == 12 || b == 13 {
            if !in_space {
                out.push(32);
                in_space = true;
            }
        } else {
            let lower = if 65 <= b && b <= 90 {
                b + 32
            } else {
                b
            };
            out.push(lower);
            in_space = false;
        }
        i += 1;
    }
    assert(bytes@.take(n as int) =~= bytes@);
    let trailing = out.len() > 0 && *out.last().unwrap() == 32;
    if trailing {
        out.pop();
    }
    assert(out@ =~= spec_normalize(char_bytes(input@)));
    Ok(out)
}

} // verus!
