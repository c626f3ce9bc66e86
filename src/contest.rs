use vstd::prelude::*;

verus! {

/// The providers a contest can come from, in the order they are presented.
#[derive(Debug, Clone, Copy, PartialEq, Eq, Hash, Structural)]
pub enum Host {
    AtCoder,
    Codeforces,
    Yukicoder,
    Topcoder,
}

/// Display name of a provider.
pub open spec fn host_name(h: Host) -> Seq<char> {
    match h {
        Host::AtCoder => "AtCoder"@,
        Host::Codeforces => "Codeforces"@,
        Host::Yukicoder => "Yukicoder"@,
        Host::Topcoder => "Topcoder"@,
    }
}

impl Host {
    /// The provider's display name.
    pub fn to_string(&self) -> (r: String)
        ensures
            r@ == host_name(*self),
    {
        match self {
            Host::AtCoder => String::from_str("AtCoder"),
            Host::Codeforces => String::from_str("Codeforces"),
            Host::Yukicoder => String::from_str("Yukicoder"),
            Host::Topcoder => String::from_str("Topcoder"),
        }
    }
}

/// One scheduled contest. `start_time` counts seconds since the Unix epoch, in UTC.
#[derive(Debug, Clone)]
pub struct Contest {
    pub name: String,
    pub start_time: i64,
    pub url: Option<String>,
    pub host: Host,
}

/// The mathematical value of a contest.
pub struct ContestView {
    pub name: Seq<char>,
    pub start_time: int,
    pub url: Option<Seq<char>>,
    pub host: Host,
}

pub open spec fn opt_view(o: Option<String>) -> Option<Seq<char>> {
    match o {
        Some(s) => Some(s@),
        None => None,
    }
}

impl View for Contest {
    type V = ContestView;

    open spec fn view(&self) -> ContestView {
        ContestView {
            name: self.name@,
            start_time: self.start_time as int,
            url: opt_view(self.url),
            host: self.host,
        }
    }
}

/// The values of a sequence of contests.
pub open spec fn views(s: Seq<Contest>) -> Seq<ContestView> {
    s.map_values(|c: Contest| c@)
}

impl Contest {
    pub fn new(name: String, start_time: i64, url: Option<String>, host: Host) -> (r: Self)
        ensures
            r.name == name,
            r.start_time == start_time,
            r.url == url,
            r.host == host,
    {
        Contest { name, start_time, url, host }
    }
}

} // verus!
