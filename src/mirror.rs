use vstd::prelude::*;

verus! {

/// Settings of the mirror's experimental write forwarding.
#[derive(Debug, Clone)]
pub struct ExperimentalConf {
    /// When set, forwarded writes must name this host.
    pub acme_domain: Option<String>,
    /// Whether writes are forwarded upstream at all.
    pub write_upstream: bool,
}

/// Whether a forwarded write may go on, by its `Host` header.
#[derive(Debug, Clone, Copy, PartialEq, Eq, Structural)]
pub enum HostCheck {
    Allowed,
    /// A host is required, and the request names none.
    MissingHost,
    /// The request names another host than the required one.
    WrongHost,
}

impl ExperimentalConf {
    /// The host check for a request whose `Host` header is `host`.
    pub open spec fn host_check_spec(&self, host: Option<Seq<char>>) -> HostCheck {
        match self.acme_domain {
            None => HostCheck::Allowed,
            Some(expected) => match host {
                None => HostCheck::MissingHost,
                Some(h) => if h == expected@ {
                    HostCheck::Allowed
                } else {
                    HostCheck::WrongHost
                },
            },
        }
    }

    pub fn check_host(&self, host: Option<&str>) -> (r: HostCheck)
        ensures
            r == self.host_check_spec(
                match host {
                    Some(h) => Some(h@),
                    None => None,
                },
            ),
    {
        match &self.acme_domain {
            None => HostCheck::Allowed,
            Some(expected) => match host {
                None => HostCheck::MissingHost,
                Some(h) => {
                    let found = String::from_str(h);
                    if found == *expected {
                        HostCheck::Allowed
                    } else {
                        HostCheck::WrongHost
                    }
                },
            },
        }
    }
}

/// A cached value with the clock reading after which it is stale.
#[derive(Debug)]
pub struct ExpiringValue<T: Clone> {
    pub value: T,
    /// Monotonic clock reading, in milliseconds, at which the value expires.
    pub expires: u64,
}

impl<T: Clone> ExpiringValue<T> {
    /// A copy of the value while it is fresh at clock reading `now`.
    pub fn get(&self, now: u64) -> (r: Option<T>)
        ensures
            now <= self.expires ==> (r matches Some(v) && cloned(self.value, v)),
            now > self.expires ==> r is None,
    {
        if now <= self.expires {
            Some(self.value.clone())
        } else {
            None
        }
    }
}

} // verus!
