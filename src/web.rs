use vstd::prelude::*;

use crate::codec::chars_of;

verus! {

/// The kind of device a request comes from.
#[derive(Clone, Copy, Debug, PartialEq, Eq, Structural)]
pub enum Device {
    PC,
    Mobile,
}

/// Whether `p` occurs in `s` at some position.
pub open spec fn occurs(s: Seq<char>, p: Seq<char>) -> bool {
    exists|i: int| 0 <= i && i + p.len() <= s.len() && #[trigger] s.subrange(i, i + p.len()) == p
}

/// The words of a user agent that mark a mobile device.
pub open spec fn mobile_marker(s: Seq<char>) -> bool {
    occurs(s, seq!['M', 'o', 'b', 'i', 'l', 'e']) || occurs(s, seq!['i', 'P', 'h', 'o', 'n', 'e'])
        || occurs(s, seq!['A', 'n', 'd', 'r', 'o', 'i', 'd']) || occurs(s, seq!['i', 'P', 'a', 'd'])
        || occurs(s, seq!['W', 'i', 'n', 'd', 'o', 'w', 's', ' ', 'P', 'h', 'o', 'n', 'e'])
}

fn occurs_exec(s: &[char], p: &[char]) -> (r: bool)
    ensures
        r == occurs(s@, p@),
{
    if p.len() > s.len() {
        return false;
    }
    let last = s.len() - p.len();
    let mut i: usize = 0;
    while i <= last
        invariant
            last == s@.len() - p@.len(),
            forall|k: int| 0 <= k < i ==> #[trigger] s@.subrange(k, k + p@.len()) != p@,
        decreases last + 1 - i,
    {
        let mut j: usize = 0;
        while j < p.len() && s[i + j] == p[j]
            invariant
                i <= last,
                last + p@.len() == s.len(),
                last == s@.len() - p@.len(),
                0 <= j <= p@.len(),
                forall|k: int| 0 <= k < j ==> s@[i + k] == p@[k],
            decreases p@.len() - j,
        {
            j += 1;
        }
        if j == p.len() {
            assert(s@.subrange(i as int, i + p@.len()) =~= p@);
            return true;
        }
        assert(s@.subrange(i as int, i + p@.len())[j as int] != p@[j as int]);
        if i == last {
            return false;
        }
        i += 1;
    }
    false
}

impl Device {
    /// The device that a `User-Agent` header names; `PC` where there is none.
    pub fn from_user_agent(ua: Option<&str>) -> (r: Device)
        ensures
            r == (match ua {
                Some(u) => if mobile_marker(u@) { Device::Mobile } else { Device::PC },
                None => Device::PC,
            }),
    {
        match ua {
            Some(u) => {
                let s = chars_of(u);
                let m1: &[char] = &['M', 'o', 'b', 'i', 'l', 'e'];
                let m2: &[char] = &['i', 'P', 'h', 'o', 'n', 'e'];
                let m3: &[char] = &['A', 'n', 'd', 'r', 'o', 'i', 'd'];
                let m4: &[char] = &['i', 'P', 'a', 'd'];
                let m5: &[char] = &['W', 'i', 'n', 'd', 'o', 'w', 's', ' ', 'P', 'h', 'o', 'n', 'e'];
                assert(m1@ =~= seq!['M', 'o', 'b', 'i', 'l', 'e']);
                assert(m2@ =~= seq!['i', 'P', 'h', 'o', 'n', 'e']);
                assert(m3@ =~= seq!['A', 'n', 'd', 'r', 'o', 'i', 'd']);
                assert(m4@ =~= seq!['i', 'P', 'a', 'd']);
                assert(m5@ =~= seq!['W', 'i', 'n', 'd', 'o', 'w', 's', ' ', 'P', 'h', 'o', 'n', 'e']);
                let sl = s.as_slice();
                if occurs_exec(sl, m1) || occurs_exec(sl, m2) || occurs_exec(sl, m3) || occurs_exec(sl, m4)
                    || occurs_exec(sl, m5) {
                    Device::Mobile
                } else {
                    Device::PC
                }
            },
            None => Device::PC,
        }
    }
}

/// Why a request was turned away.
#[derive(Clone, Copy, Debug, PartialEq, Eq, Structural)]
pub enum Refusal {
    /// No one is logged in.
    Unauthorized,
    /// The session could not be read.
    BadRequest,
}

/// The logged-in user, for handlers that need one.
pub struct Identity<T>(pub T);

/// The logged-in user, if any.
pub struct OptionalIdentity<T>(pub Option<T>);

impl<T> Identity<T> {
    /// The identity for what the session holds: refused where it holds nothing or
    /// cannot be read.
    pub fn from_session<E>(found: Result<Option<T>, E>) -> (r: Result<Identity<T>, Refusal>)
        ensures
            match found {
                Ok(Some(v)) => r matches Ok(id) && id.0 == v,
                Ok(None) => r == Err::<Identity<T>, Refusal>(Refusal::Unauthorized),
                Err(_) => r == Err::<Identity<T>, Refusal>(Refusal::BadRequest),
            },
    {
        match found {
            Ok(Some(v)) => Ok(Identity(v)),
            Ok(None) => Err(Refusal::Unauthorized),
            Err(_) => Err(Refusal::BadRequest),
        }
    }
}

impl<T> OptionalIdentity<T> {
    /// The optional identity for what the session holds: refused only where it
    /// cannot be read.
    pub fn from_session<E>(found: Result<Option<T>, E>) -> (r: Result<OptionalIdentity<T>, Refusal>)
        ensures
            match found {
                Ok(v) => r matches Ok(id) && id.0 == v,
                Err(_) => r == Err::<OptionalIdentity<T>, Refusal>(Refusal::BadRequest),
            },
    {
        match found {
            Ok(v) => Ok(OptionalIdentity(v)),
            Err(_) => Err(Refusal::BadRequest),
        }
    }
}

/// Guards routes behind an administrator key.
pub struct AdminGuardMiddleware(pub String);

/// The guard around one service.
pub struct AdminGuardMiddlewareImpl<S> {
    service: S,
    key: String,
}

impl AdminGuardMiddleware {
    /// Wraps `service` with this guard's key.
    pub fn new_transform<S>(&self, service: S) -> (r: AdminGuardMiddlewareImpl<S>)
        ensures
            r.service_of() == service,
            r.key_view() == self.0@,
    {
        AdminGuardMiddlewareImpl { service, key: self.0.clone() }
    }
}

impl<S> AdminGuardMiddlewareImpl<S> {
    pub closed spec fn key_view(&self) -> Seq<char> {
        self.key@
    }

    pub closed spec fn service_of(&self) -> S {
        self.service
    }

    /// The guarded service.
    pub fn service(&self) -> (r: &S)
        ensures
            *r == self.service_of(),
    {
        &self.service
    }

    /// Whether the administrator key found in the session lets the request through.
    pub fn allows(&self, admin: Option<&str>) -> (r: bool)
        ensures
            r == (match admin {
                Some(a) => a@ == self.key_view(),
                None => false,
            }),
    {
        match admin {
            Some(a) => {
                let x = chars_of(a);
                let k = chars_of(self.key.as_str());
                crate::markup::same_chars(x.as_slice(), k.as_slice())
            },
            None => false,
        }
    }
}

/// A value that can check its own fields.
pub trait Validation {
    fn validate(&self) -> Result<(), String>;
}

} // verus!
