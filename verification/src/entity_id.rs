//! Validation and splitting of `domain.object_id` entity identifiers.
//!
//! Identifiers are checked by a single forward byte scan: no regular
//! expressions, no allocation on the success path. The rules are stated
//! over the UTF-8 bytes of the input (`spec_bytes`), which is also how the
//! scan reads it.

use vstd::prelude::*;
use vstd::string::StringSliceAdditionalSpecFns;

verus! {

/// Longest domain accepted, in bytes.
pub const MAX_DOMAIN_LENGTH: usize = 64;

/// ASCII `a`.
pub const LOWER_A: u8 = 97;

/// ASCII `z`.
pub const LOWER_Z: u8 = 122;

/// ASCII `0`.
pub const DIGIT_0: u8 = 48;

/// ASCII `9`.
pub const DIGIT_9: u8 = 57;

/// ASCII `_`.
pub const UNDERSCORE: u8 = 95;

/// ASCII `.`, the separator between domain and object id.
pub const DOT: u8 = 46;

/// The bytes an identifier component may contain: lowercase ASCII letters,
/// ASCII digits, and the underscore.
pub open spec fn is_name_byte(b: u8) -> bool {
    (LOWER_A <= b && b <= LOWER_Z) || (DIGIT_0 <= b && b <= DIGIT_9) || b == UNDERSCORE
}

/// A valid domain: 1 to 64 bytes, every byte in `[a-z0-9_]`, and no two
/// consecutive underscores anywhere.
pub open spec fn valid_domain(s: Seq<u8>) -> bool {
    &&& 1 <= s.len() <= MAX_DOMAIN_LENGTH
    &&& forall|i: int| 0 <= i < s.len() ==> is_name_byte(#[trigger] s[i])
    &&& forall|i: int| 0 < i < s.len() ==> !(s[i - 1] == UNDERSCORE && #[trigger] s[i] == UNDERSCORE)
}

/// A valid object id: at least 1 byte, every byte in `[a-z0-9_]`, and the
/// first and last bytes are not underscores. Interior double underscores are
/// allowed here, unlike in domains; the asymmetry is intentional.
pub open spec fn valid_object_id(s: Seq<u8>) -> bool {
    &&& s.len() >= 1
    &&& s[0] != UNDERSCORE
    &&& s[s.len() - 1] != UNDERSCORE
    &&& forall|i: int| 0 <= i < s.len() ==> is_name_byte(#[trigger] s[i])
}

/// Validates a domain name with one forward byte scan.
pub fn is_valid_domain(domain: &str) -> (r: bool)
    ensures
        r == valid_domain(domain.spec_bytes()),
{
    let bytes = domain.as_bytes();
    let len = bytes.len();
    if len == 0 || len > MAX_DOMAIN_LENGTH {
        return false;
    }
    let mut prev_underscore = false;
    let mut i: usize = 0;
    while i < len
        invariant
            bytes@ == domain.spec_bytes(),
            len == bytes@.len(),
            1 <= len <= 64,
            0 <= i <= len,
            forall|j: int| 0 <= j < i ==> is_name_byte(#[trigger] bytes@[j]),
            forall|j: int| 0 < j < i ==> !(bytes@[j - 1] == UNDERSCORE && #[trigger] bytes@[j] == UNDERSCORE),
            prev_underscore == (i > 0 && bytes@[i - 1] == UNDERSCORE),
        decreases len - i,
    {
        let b = bytes[i];
        if !(LOWER_A <= b && b <= LOWER_Z) && !(DIGIT_0 <= b && b <= DIGIT_9) && b != UNDERSCORE {
            return false;
        }
        if b == UNDERSCORE {
            if prev_underscore {
                return false;
            }
            prev_underscore = true;
        } else {
            prev_underscore = false;
        }
        i = i + 1;
    }
    true
}

/// Validates an object id with one forward byte scan.
pub fn is_valid_object_id(object_id: &str) -> (r: bool)
    ensures
        r == valid_object_id(object_id.spec_bytes()),
{
    let bytes = object_id.as_bytes();
    let len = bytes.len();
    if len == 0 {
        return false;
    }
    if bytes[0] == UNDERSCORE || bytes[len - 1] == UNDERSCORE {
        return false;
    }
    let mut i: usize = 0;
    while i < len
        invariant
            bytes@ == object_id.spec_bytes(),
            len == bytes@.len(),
            len >= 1,
            0 <= i <= len,
            bytes@[0] != UNDERSCORE,
            bytes@[len - 1] != UNDERSCORE,
            forall|j: int| 0 <= j < i ==> is_name_byte(#[trigger] bytes@[j]),
        decreases len - i,
    {
        let b = bytes[i];
        if !(LOWER_A <= b && b <= LOWER_Z) && !(DIGIT_0 <= b && b <= DIGIT_9) && b != UNDERSCORE {
            return false;
        }
        i = i + 1;
    }
    true
}

/// Position `i` holds the first `.` of `s`.
pub open spec fn is_first_dot(s: Seq<u8>, i: int) -> bool {
    &&& 0 <= i < s.len()
    &&& s[i] == DOT
    &&& forall|j: int| 0 <= j < i ==> #[trigger] s[j] != DOT
}

/// The position of the first `.` of `s`; meaningful only when one exists.
pub open spec fn first_dot_of(s: Seq<u8>) -> int {
    choose|i: int| is_first_dot(s, i)
}

/// A valid entity identifier: the text before the first `.` is a valid
/// domain and the text after it is a valid object id. Only the first `.`
/// separates; any later `.` lands in the object id and fails its byte rules.
pub open spec fn valid_entity_id(s: Seq<u8>) -> bool {
    exists|i: int|
        #[trigger] is_first_dot(s, i) && valid_domain(s.subrange(0, i)) && valid_object_id(
            s.subrange(i + 1, s.len() as int),
        )
}

/// The splitter's own, deliberately weaker, acceptance rule: the first `.`
/// has at least one byte on each side. Character classes are not checked.
pub open spec fn split_ok(s: Seq<u8>) -> bool {
    exists|i: int| #[trigger] is_first_dot(s, i) && 0 < i && i + 1 < s.len()
}

/// Two positions that both hold the first dot are the same position.
pub proof fn lemma_first_dot_unique(s: Seq<u8>, i: int, j: int)
    requires
        is_first_dot(s, i),
        is_first_dot(s, j),
    ensures
        i == j,
{
    if i < j {
        assert(s[i] != DOT);
    } else if j < i {
        assert(s[j] != DOT);
    }
}

/// An identifier the full validator accepts is always one the splitter
/// splits: the validator's rules include the splitter's non-emptiness rule.
/// The converse fails, by design: `split_ok` ignores the byte rules.
pub proof fn lemma_valid_entity_id_split_ok(s: Seq<u8>)
    requires
        valid_entity_id(s),
    ensures
        split_ok(s),
{
    let i = choose|i: int|
        #[trigger] is_first_dot(s, i) && valid_domain(s.subrange(0, i)) && valid_object_id(
            s.subrange(i + 1, s.len() as int),
        );
    assert(s.subrange(0, i).len() == i);
    assert(s.subrange(i + 1, s.len() as int).len() == s.len() - i - 1);
}

/// In well-formed UTF-8 whose first byte is ASCII, byte offset 1 starts a
/// character.
proof fn lemma_char_boundary_after_ascii(bytes: Seq<u8>)
    requires
        vstd::utf8::valid_utf8(bytes),
        bytes.len() >= 1,
        bytes[0] < 128,
    ensures
        vstd::utf8::is_char_boundary(bytes, 1),
{
    assert(vstd::utf8::valid_first_scalar(bytes));
    assert(vstd::utf8::is_leading_byte_width_1(bytes[0]));
    assert(vstd::utf8::length_of_first_scalar(bytes) == 1);
    assert(vstd::utf8::valid_utf8(vstd::utf8::pop_first_scalar(bytes)));
    assert(vstd::utf8::is_char_boundary(vstd::utf8::pop_first_scalar(bytes), 0));
    assert(vstd::utf8::is_char_boundary(bytes, 1));
}

/// Finds the first `.` in the bytes, scanning forward.
fn find_dot(bytes: &[u8]) -> (r: Option<usize>)
    ensures
        match r {
            Some(i) => is_first_dot(bytes@, i as int),
            None => forall|j: int| 0 <= j < bytes@.len() ==> #[trigger] bytes@[j] != DOT,
        },
{
    let len = bytes.len();
    let mut i: usize = 0;
    while i < len
        invariant
            len == bytes@.len(),
            0 <= i <= len,
            forall|j: int| 0 <= j < i ==> #[trigger] bytes@[j] != DOT,
        decreases len - i,
    {
        if bytes[i] == DOT {
            return Some(i);
        }
        i = i + 1;
    }
    None
}

/// Splits `entity_id` at its first `.`, handing back the two sides as
/// zero-copy views into the input; the proof obligations of `str::split_at`
/// are met because the `.` byte and the byte after it start characters.
fn split_at_dot<'a>(entity_id: &'a str, dot: usize) -> (r: (&'a str, &'a str))
    requires
        is_first_dot(entity_id.spec_bytes(), dot as int),
    ensures
        r.0.spec_bytes() == entity_id.spec_bytes().subrange(0, dot as int),
        r.1.spec_bytes() == entity_id.spec_bytes().subrange(
            dot as int + 1,
            entity_id.spec_bytes().len() as int,
        ),
{
    proof {
        vstd::utf8::encode_utf8_valid_utf8(entity_id@);
        vstd::utf8::is_char_boundary_iff_not_is_continuation_byte(
            entity_id.spec_bytes(),
            dot as int,
        );
    }
    let (domain, rest) = entity_id.split_at(dot);
    proof {
        vstd::utf8::encode_utf8_valid_utf8(rest@);
        assert(rest.spec_bytes()[0] == entity_id.spec_bytes()[dot as int]);
        if rest.spec_bytes().len() == 1 {
            vstd::utf8::is_char_boundary_start_end_of_seq(rest.spec_bytes());
        } else {
            lemma_char_boundary_after_ascii(rest.spec_bytes());
        }
    }
    let (_sep, object_id) = rest.split_at(1);
    proof {
        assert(object_id.spec_bytes() =~= entity_id.spec_bytes().subrange(
            dot as int + 1,
            entity_id.spec_bytes().len() as int,
        ));
    }
    (domain, object_id)
}

/// Validates a full `domain.object_id` identifier: both sides of the first
/// `.` must pass their validators.
pub fn is_valid_entity_id(entity_id: &str) -> (r: bool)
    ensures
        r == valid_entity_id(entity_id.spec_bytes()),
{
    let ghost s = entity_id.spec_bytes();
    let dot = match find_dot(entity_id.as_bytes()) {
        Some(d) => d,
        None => {
            proof {
                if valid_entity_id(s) {
                    let i = choose|i: int|
                        #[trigger] is_first_dot(s, i) && valid_domain(s.subrange(0, i))
                            && valid_object_id(s.subrange(i + 1, s.len() as int));
                    assert(s[i] != DOT);
                }
            }
            return false;
        },
    };
    let (domain, object_id) = split_at_dot(entity_id, dot);
    let r = is_valid_domain(domain) && is_valid_object_id(object_id);
    proof {
        if !r && valid_entity_id(s) {
            let i = choose|i: int|
                #[trigger] is_first_dot(s, i) && valid_domain(s.subrange(0, i)) && valid_object_id(
                    s.subrange(i + 1, s.len() as int),
                );
            lemma_first_dot_unique(s, i, dot as int);
        }
    }
    r
}

/// Splits an entity identifier at its first `.` into `(domain, object_id)`,
/// zero-copy. Returns `None` when there is no `.` or either side is empty.
/// This check is intentionally weaker than `is_valid_entity_id`: byte rules
/// are not enforced here, so some identifiers split that do not validate.
pub fn split_entity_id_fast<'a>(entity_id: &'a str) -> (r: Option<(&'a str, &'a str)>)
    ensures
        match r {
            Some(parts) => {
                let s = entity_id.spec_bytes();
                let i = first_dot_of(s);
                &&& split_ok(s)
                &&& is_first_dot(s, i)
                &&& parts.0.spec_bytes() == s.subrange(0, i)
                &&& parts.1.spec_bytes() == s.subrange(i + 1, s.len() as int)
            },
            None => !split_ok(entity_id.spec_bytes()),
        },
{
    let ghost s = entity_id.spec_bytes();
    let dot = match find_dot(entity_id.as_bytes()) {
        Some(d) => d,
        None => {
            proof {
                if split_ok(s) {
                    let i = choose|i: int| #[trigger] is_first_dot(s, i) && 0 < i && i + 1 < s.len();
                    assert(s[i] != DOT);
                }
            }
            return None;
        },
    };
    let n = entity_id.as_bytes().len();
    if dot == 0 || dot + 1 == n {
        proof {
            if split_ok(s) {
                let i = choose|i: int| #[trigger] is_first_dot(s, i) && 0 < i && i + 1 < s.len();
                lemma_first_dot_unique(s, i, dot as int);
            }
        }
        return None;
    }
    let (domain, object_id) = split_at_dot(entity_id, dot);
    proof {
        assert(split_ok(s));
        assert(is_first_dot(s, first_dot_of(s)));
        lemma_first_dot_unique(s, first_dot_of(s), dot as int);
    }
    Some((domain, object_id))
}

/// The kind of failure the raising form of the splitter reports: the input
/// had no `.`-separated non-empty pair. Carries the rejected identifier.
#[derive(Debug)]
pub struct InvalidEntityId {
    pub entity_id: String,
}

/// The raising form of the splitter, for hosts that prefer an error over an
/// absent result. Accepts and rejects exactly as `split_entity_id_fast`.
pub fn split_entity_id<'a>(entity_id: &'a str) -> (r: Result<
    (&'a str, &'a str),
    InvalidEntityId,
>)
    ensures
        match r {
            Ok(parts) => {
                let s = entity_id.spec_bytes();
                let i = first_dot_of(s);
                &&& split_ok(s)
                &&& is_first_dot(s, i)
                &&& parts.0.spec_bytes() == s.subrange(0, i)
                &&& parts.1.spec_bytes() == s.subrange(i + 1, s.len() as int)
            },
            Err(e) => !split_ok(entity_id.spec_bytes()) && e.entity_id@ == entity_id@,
        },
{
    match split_entity_id_fast(entity_id) {
        Some(parts) => Ok(parts),
        None => Err(InvalidEntityId { entity_id: entity_id.to_owned() }),
    }
}

} // verus!
