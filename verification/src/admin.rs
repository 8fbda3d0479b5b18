//! Checks behind the `/admin` control plane.

use vstd::prelude::*;
use vstd::utf8::{encode_utf8, encode_utf8_decode_utf8};
use crate::text::{is_blank, trim, trim_str};

verus! {

/// Compares two byte strings without stopping at the first difference, so that
/// the position of a mismatch does not show in the running time.
pub fn constant_time_eq(a: &[u8], b: &[u8]) -> (equal: bool)
    ensures
        equal == (a@ == b@),
{
    let mut difference: usize = a.len() ^ b.len();
    let longest: usize = if a.len() >= b.len() { a.len() } else { b.len() };
    proof {
        let la = a.len();
        let lb = b.len();
        assert((la ^ lb) == 0usize <==> la == lb) by (bit_vector);
    }
    let mut index: usize = 0;
    while index < longest
        invariant
            index <= longest,
            longest == if a@.len() >= b@.len() { a@.len() } else { b@.len() },
            (difference == 0) <==> (a@.len() == b@.len() && forall|j: int|
                0 <= j < index ==> padded(a@, j) == padded(b@, j)),
        decreases longest - index,
    {
        let left: u8 = if index < a.len() { a[index] } else { 0 };
        let right: u8 = if index < b.len() { b[index] } else { 0 };
        let x: u8 = left ^ right;
        proof {
            let d = difference;
            assert((x as usize) == 0usize <==> left == right) by (bit_vector)
                requires x == left ^ right;
            assert((d | (x as usize)) == 0usize <==> (d == 0usize && (x as usize) == 0usize)) by (bit_vector);
        }
        assert(left == padded(a@, index as int));
        assert(right == padded(b@, index as int));
        let ghost before = difference;
        difference = difference | (x as usize);
        index = index + 1;
        assert((difference == 0) <==> (a@.len() == b@.len() && forall|j: int|
            0 <= j < index ==> padded(a@, j) == padded(b@, j))) by {
            if difference == 0 {
                assert forall|j: int| 0 <= j < index implies padded(a@, j) == padded(b@, j) by {
                    if j < index - 1 {
                    } else {
                        assert(j == index - 1);
                    }
                }
            }
        }
    }
    proof {
        if difference == 0 {
            assert forall|j: int| 0 <= j < a@.len() implies a@[j] == b@[j] by {
                assert(padded(a@, j) == padded(b@, j));
            }
            assert(a@ =~= b@);
        }
        if a@ == b@ {
            assert forall|j: int| 0 <= j < index implies padded(a@, j) == padded(b@, j) by {}
        }
    }
    difference == 0
}

/// The byte at `index`, or zero past the end.
pub open spec fn padded(bytes: Seq<u8>, index: int) -> u8 {
    if 0 <= index < bytes.len() { bytes[index] } else { 0 }
}

/// Longest admin secret that is compared, which bounds the work a hostile
/// caller can cause. Far above any sane passphrase.
pub const MAX_SECRET_LEN: usize = 1024;

/// The token of an `Authorization` header value: what follows `Bearer `,
/// trimmed; none for any other scheme.
pub open spec fn bearer_token(header: Seq<char>) -> Option<Seq<char>> {
    if header.len() >= 7 && header.take(7) == "Bearer "@ {
        Some(trim(header.skip(7)))
    } else {
        None
    }
}

/// Whether a request whose `Authorization` header reads `header` (none when
/// the header is absent or not visible ASCII) carries the admin secret.
pub open spec fn authorized(header: Option<Seq<char>>, secret: Seq<char>) -> bool {
    match header {
        Some(h) => match bearer_token(h) {
            Some(token) => encode_utf8(token).len() <= MAX_SECRET_LEN && token == secret,
            None => false,
        },
        None => false,
    }
}

/// The state behind every admin route: the session control and the admin
/// secret. It exists only when a usable secret is configured, which is what
/// makes the admin surface fail closed.
pub struct AdminState<C> {
    control: C,
    password: String,
}

impl<C> AdminState<C> {
    /// The admin secret.
    pub closed spec fn secret(&self) -> Seq<char> {
        self.password@
    }

    /// The session control the admin routes drive.
    pub closed spec fn control_spec(&self) -> C {
        self.control
    }

    /// `None` when no secret is configured or it is blank.
    pub fn new(control: C, password: Option<String>) -> (state: Option<Self>)
        ensures
            state is Some <==> (password matches Some(p) && trim(p@).len() > 0),
            state matches Some(st) ==> st.secret() == password->0@ && st.control_spec() == control,
    {
        match password {
            Some(p) => {
                if is_blank(p.as_str()) {
                    None
                } else {
                    Some(AdminState { control, password: p })
                }
            },
            None => None,
        }
    }

    /// The session control the admin routes drive.
    pub fn control(&self) -> (control: &C)
        ensures
            *control == self.control_spec(),
    {
        &self.control
    }

    /// Whether a request whose `Authorization` header reads `authorization`
    /// may use the admin API. Only the `Bearer` scheme authenticates, and the
    /// token is compared in constant time.
    pub fn authorize(&self, authorization: Option<&str>) -> (allowed: bool)
        ensures
            allowed == authorized(
                match authorization {
                    Some(h) => Some(h@),
                    None => None,
                },
                self.secret(),
            ),
    {
        let header = match authorization {
            Some(h) => h,
            None => { return false; },
        };
        let n = header.unicode_len();
        if n < 7 || !has_bearer_prefix(header) {
            return false;
        }
        let rest = header.substring_char(7, n);
        assert(rest@ == header@.skip(7));
        let token = trim_str(rest);
        assert(bearer_token(header@) == Some(token@));
        let presented: &[u8] = token.as_bytes();
        if presented.len() > MAX_SECRET_LEN {
            return false;
        }
        let equal = constant_time_eq(presented, self.password.as_str().as_bytes());
        proof {
            encode_utf8_decode_utf8(token@);
            encode_utf8_decode_utf8(self.password@);
        }
        equal
    }
}

/// Whether `header` starts with `Bearer `.
fn has_bearer_prefix(header: &str) -> (prefixed: bool)
    requires
        header@.len() >= 7,
    ensures
        prefixed == (header@.take(7) == "Bearer "@),
{
    proof {
        reveal_strlit("Bearer ");
    }
    let same = header.get_char(0) == 'B' && header.get_char(1) == 'e' && header.get_char(2) == 'a'
        && header.get_char(3) == 'r' && header.get_char(4) == 'e' && header.get_char(5) == 'r'
        && header.get_char(6) == ' ';
    if same {
        assert(header@.take(7) =~= "Bearer "@);
    } else {
        assert(header@.take(7) != "Bearer "@) by {
            if header@.take(7) == "Bearer "@ {
                assert("Bearer "@ =~= seq!['B', 'e', 'a', 'r', 'e', 'r', ' ']);
                assert(header@[0] == header@.take(7)[0]);
                assert(header@[1] == header@.take(7)[1]);
                assert(header@[2] == header@.take(7)[2]);
                assert(header@[3] == header@.take(7)[3]);
                assert(header@[4] == header@.take(7)[4]);
                assert(header@[5] == header@.take(7)[5]);
                assert(header@[6] == header@.take(7)[6]);
            }
        }
    }
    same
}

/// The header the admin page sends, `Bearer ` followed by the secret, is
/// accepted for every secret that has no surrounding whitespace and fits the
/// length bound; and no header of another scheme is accepted.
pub proof fn law_bearer_secret_is_accepted(secret: Seq<char>, header: Seq<char>)
    requires
        trim(secret) == secret,
        encode_utf8(secret).len() <= MAX_SECRET_LEN,
    ensures
        authorized(Some("Bearer "@ + secret), secret),
        authorized(Some(header), secret) ==> header.take(7) == "Bearer "@,
{
    reveal_strlit("Bearer ");
    let h = "Bearer "@ + secret;
    assert(h.take(7) =~= "Bearer "@);
    assert(h.skip(7) =~= secret);
}

} // verus!
