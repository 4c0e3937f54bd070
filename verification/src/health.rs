use crate::matcher::{regex_match, ComparableRegex};
use crate::strutil::chars_to_string;
use vstd::prelude::*;
use vstd::string::StringExecFns;

verus! {

/// The two-state health value of one endpoint.
#[derive(Debug, Clone, Copy, PartialEq, Eq, Structural)]
pub enum Healthiness {
    Up,
    Down,
}

/// Active health-check policy of one upstream.
#[derive(Debug, Clone)]
pub struct HealthConfig {
    /// Per-probe request timeout in milliseconds.
    pub timeout: u64,
    /// Pause between two probes of one endpoint, in seconds.
    pub interval: u64,
    /// Path appended to the endpoint authority for the probe request.
    pub path: String,
    /// Regex over the three-digit response status; empty means any 2xx.
    pub status_regex: String,
    /// Consecutive successful probes needed to transition to `Up`.
    pub rise: u64,
    /// Consecutive failing probes needed to transition to `Down`.
    pub fall: u64,
    /// Whether an endpoint starts `Down` before its first probe.
    pub default_down: bool,
}

impl Default for HealthConfig {
    fn default() -> (r: HealthConfig)
        ensures
            r.timeout == 0 && r.interval == 0 && r.path@ == Seq::<char>::empty(),
            r.status_regex@ == Seq::<char>::empty(),
            r.rise == 0 && r.fall == 0 && !r.default_down,
    {
        HealthConfig {
            timeout: 0,
            interval: 0,
            path: String::new(),
            status_regex: String::new(),
            rise: 0,
            fall: 0,
            default_down: false,
        }
    }
}

/// True when the ring holds at least `k` outcomes and the last `k` all equal `v`.
pub open spec fn last_outcomes_are(ring: Seq<Healthiness>, k: nat, v: Healthiness) -> bool {
    &&& ring.len() >= k
    &&& forall|i: int| ring.len() - k <= i < ring.len() ==> ring[i] == v
}

/// The ring after one outcome is pushed, dropping the oldest entry once
/// more than `capacity` outcomes are held.
pub open spec fn spec_ring_push(ring: Seq<Healthiness>, outcome: Healthiness, capacity: nat) -> Seq<
    Healthiness,
> {
    let grown = ring.push(outcome);
    if grown.len() > capacity {
        grown.subrange(1, grown.len() as int)
    } else {
        grown
    }
}

/// The aggregated state after an outcome lands in the ring: a run of `rise`
/// successes flips to `Up`, a run of `fall` failures flips to `Down`, and
/// anything else keeps the previous state.
pub open spec fn spec_next_status(
    prev: Healthiness,
    ring: Seq<Healthiness>,
    rise: nat,
    fall: nat,
    outcome: Healthiness,
) -> Healthiness {
    match outcome {
        Healthiness::Up => {
            if last_outcomes_are(ring, rise, Healthiness::Up) {
                Healthiness::Up
            } else {
                prev
            }
        },
        Healthiness::Down => {
            if last_outcomes_are(ring, fall, Healthiness::Down) {
                Healthiness::Down
            } else {
                prev
            }
        },
    }
}

/// Bounded history of the most recent probe outcomes of one endpoint,
/// folded into an aggregated `Up`/`Down` state with rise/fall hysteresis.
pub struct StatusRing {
    status: Healthiness,
    raise: usize,
    fall: usize,
    capacity: usize,
    ring: Vec<Healthiness>,
}

impl StatusRing {
    /// Internal consistency: the ring never outgrows its capacity,
    /// and the capacity is the sum of the two thresholds.
    pub closed spec fn wf(&self) -> bool {
        &&& self.capacity == self.raise + self.fall
        &&& self.ring@.len() <= self.capacity
    }

    pub closed spec fn spec_status(&self) -> Healthiness {
        self.status
    }

    pub closed spec fn spec_ring(&self) -> Seq<Healthiness> {
        self.ring@
    }

    pub closed spec fn spec_rise(&self) -> nat {
        self.raise as nat
    }

    pub closed spec fn spec_fall(&self) -> nat {
        self.fall as nat
    }

    pub closed spec fn spec_capacity(&self) -> nat {
        self.capacity as nat
    }

    pub fn new(cfg: &HealthConfig) -> (r: StatusRing)
        requires
            cfg.rise + cfg.fall <= usize::MAX,
        ensures
            r.wf(),
            r.spec_status() == (if cfg.default_down {
                Healthiness::Down
            } else {
                Healthiness::Up
            }),
            r.spec_ring() == Seq::<Healthiness>::empty(),
            r.spec_rise() == cfg.rise,
            r.spec_fall() == cfg.fall,
            r.spec_capacity() == cfg.rise + cfg.fall,
    {
        let status = if cfg.default_down {
            Healthiness::Down
        } else {
            Healthiness::Up
        };
        let raise = cfg.rise as usize;
        let fall = cfg.fall as usize;
        StatusRing { status, capacity: raise + fall, raise, fall, ring: Vec::new() }
    }

    /// The current aggregated state.
    pub fn status(&self) -> (r: Healthiness)
        ensures
            r == self.spec_status(),
    {
        self.status
    }

    /// Record one probe outcome and return the new aggregated state.
    pub fn append(&mut self, status: Healthiness) -> (r: Healthiness)
        requires
            old(self).wf(),
        ensures
            final(self).wf(),
            final(self).spec_ring() == spec_ring_push(
                old(self).spec_ring(),
                status,
                old(self).spec_capacity(),
            ),
            final(self).spec_status() == spec_next_status(
                old(self).spec_status(),
                final(self).spec_ring(),
                old(self).spec_rise(),
                old(self).spec_fall(),
                status,
            ),
            r == final(self).spec_status(),
            final(self).spec_rise() == old(self).spec_rise(),
            final(self).spec_fall() == old(self).spec_fall(),
            final(self).spec_capacity() == old(self).spec_capacity(),
    {
        self.ring.push(status);
        if self.ring.len() > self.capacity {
            self.ring.remove(0);
        }
        match status {
            Healthiness::Down => {
                if self.check_status(Healthiness::Down, self.fall) {
                    self.status = Healthiness::Down;
                }
            },
            Healthiness::Up => {
                if self.check_status(Healthiness::Up, self.raise) {
                    self.status = Healthiness::Up;
                }
            },
        }
        self.status
    }

    /// True when the ring ends in at least `threshold` outcomes equal to `expect`.
    fn check_status(&self, expect: Healthiness, threshold: usize) -> (r: bool)
        ensures
            r == last_outcomes_are(self.spec_ring(), threshold as nat, expect),
    {
        if self.ring.len() < threshold {
            return false;
        }
        let start = self.ring.len() - threshold;
        let mut i = start;
        while i < self.ring.len()
            invariant
                start <= i <= self.ring@.len(),
                start == self.ring@.len() - threshold,
                forall|j: int| start <= j < i ==> self.ring@[j] == expect,
            decreases self.ring@.len() - i,
        {
            if self.ring[i] != expect {
                return false;
            }
            i = i + 1;
        }
        true
    }
}


/// A decimal digit as its character.
pub open spec fn spec_digit(d: int) -> char {
    if d == 0 {
        '0'
    } else if d == 1 {
        '1'
    } else if d == 2 {
        '2'
    } else if d == 3 {
        '3'
    } else if d == 4 {
        '4'
    } else if d == 5 {
        '5'
    } else if d == 6 {
        '6'
    } else if d == 7 {
        '7'
    } else if d == 8 {
        '8'
    } else {
        '9'
    }
}

/// The three decimal digits of an HTTP status code.
pub open spec fn spec_status_digits(c: int) -> Seq<char> {
    seq![spec_digit(c / 100), spec_digit((c / 10) % 10), spec_digit(c % 10)]
}

fn digit(d: u16) -> (r: char)
    requires
        d < 10,
    ensures
        r == spec_digit(d as int),
{
    if d == 0 {
        '0'
    } else if d == 1 {
        '1'
    } else if d == 2 {
        '2'
    } else if d == 3 {
        '3'
    } else if d == 4 {
        '4'
    } else if d == 5 {
        '5'
    } else if d == 6 {
        '6'
    } else if d == 7 {
        '7'
    } else if d == 8 {
        '8'
    } else {
        '9'
    }
}

/// An HTTP status code as its three digits.
pub fn status_digits(c: u16) -> (r: String)
    requires
        100 <= c <= 999,
    ensures
        r@ == spec_status_digits(c as int),
{
    let mut out: Vec<char> = Vec::new();
    out.push(digit(c / 100));
    out.push(digit((c / 10) % 10));
    out.push(digit(c % 10));
    proof {
        assert(out@ =~= spec_status_digits(c as int));
    }
    chars_to_string(&out)
}

/// How one probe outcome is judged: no response is a failure; with a
/// status regex the regex decides over the three digits; otherwise any
/// 2xx status is a success.
pub open spec fn spec_classify_probe(status: Option<u16>, status_regex: Seq<char>) -> Healthiness {
    match status {
        None => Healthiness::Down,
        Some(c) => if status_regex.len() == 0 {
            if 200 <= c < 300 {
                Healthiness::Up
            } else {
                Healthiness::Down
            }
        } else {
            if regex_match(status_regex, spec_status_digits(c as int)) {
                Healthiness::Up
            } else {
                Healthiness::Down
            }
        },
    }
}

/// Judge one probe outcome. The compiled regex, when one is given,
/// carries the configured status pattern.
pub fn classify_probe(status: Option<u16>, status_regex: &Option<ComparableRegex>) -> (r:
    Healthiness)
    requires
        match status {
            Some(c) => 100 <= c <= 999,
            None => true,
        },
        match status_regex {
            Some(re) => re.pattern().len() > 0,
            None => true,
        },
    ensures
        r == spec_classify_probe(
            status,
            match status_regex {
                Some(re) => re.pattern(),
                None => Seq::<char>::empty(),
            },
        ),
{
    match status {
        None => Healthiness::Down,
        Some(c) => match status_regex {
            Some(re) => {
                let digits = status_digits(c);
                if re.is_match(digits.as_str()) {
                    Healthiness::Up
                } else {
                    Healthiness::Down
                }
            },
            None => {
                if 200 <= c && c < 300 {
                    Healthiness::Up
                } else {
                    Healthiness::Down
                }
            },
        },
    }
}

/// The URL the prober requests: the endpoint's scheme and authority
/// with the configured health path.
pub fn probe_url(scheme: &String, authority: &String, path: &String) -> (r: String)
    ensures
        r@ == scheme@ + "://"@ + authority@ + path@,
{
    let mut out = scheme.clone();
    out.append("://");
    out.append(authority.as_str());
    out.append(path.as_str());
    out
}

} // verus!
