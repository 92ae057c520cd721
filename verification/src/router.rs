use vstd::prelude::*;

verus! {

/// A flag a port may carry: whether it takes MIDI in or gives MIDI out.
#[derive(Debug, Clone, Copy, PartialEq, Eq, Structural)]
pub enum PortFlag {
    IsInput,
    IsOutput,
}

/// What the routing reads of a port: its name, its aliases and its flags.
pub struct PortInfo {
    pub name: String,
    pub aliases: Vec<String>,
    pub is_input: bool,
    pub is_output: bool,
}

/// A controller port we know: part of one of its aliases, the flag it carries, and the port
/// of ours it connects to.
pub struct PortDesignation {
    pub alias_pattern: String,
    pub flag: PortFlag,
    pub target_port: String,
}

/// Whether `needle` occurs in `haystack` as a run of consecutive characters.
pub open spec fn holds_substring(haystack: Seq<char>, needle: Seq<char>) -> bool {
    exists|i: int| 0 <= i <= haystack.len() - needle.len() && #[trigger] haystack.subrange(i, i + needle.len()) == needle
}

/// Whether `needle` occurs in `haystack` from character `i` on.
fn matches_at(haystack: &str, needle: &str, i: usize, m: usize, n: usize) -> (r: bool)
    requires
        m == needle@.len(),
        n == haystack@.len(),
        i + m <= n,
    ensures
        r == (haystack@.subrange(i as int, i + m) == needle@),
{
    let mut j: usize = 0;
    while j < m
        invariant
            m == needle@.len(),
            n == haystack@.len(),
            i + m <= n,
            0 <= j <= m,
            forall|k: int| 0 <= k < j ==> haystack@[i + k] == needle@[k],
        decreases m - j,
    {
        if haystack.get_char(i + j) != needle.get_char(j) {
            assert(haystack@.subrange(i as int, i + m)[j as int] != needle@[j as int]);
            return false;
        }
        j += 1;
    }
    assert(haystack@.subrange(i as int, i + m) =~= needle@);
    true
}

/// Whether `needle` occurs in `haystack` as a run of consecutive characters.
fn str_contains(haystack: &str, needle: &str) -> (r: bool)
    ensures
        r == holds_substring(haystack@, needle@),
{
    let n = haystack.unicode_len();
    let m = needle.unicode_len();
    if m > n {
        return false;
    }
    let mut i: usize = 0;
    loop
        invariant
            n == haystack@.len(),
            m == needle@.len(),
            m <= n,
            0 <= i <= n - m,
            forall|k: int| 0 <= k < i ==> #[trigger] haystack@.subrange(k, k + m) != needle@,
        decreases n - m - i,
    {
        if matches_at(haystack, needle, i, m, n) {
            return true;
        }
        if i == n - m {
            return false;
        }
        i += 1;
    }
}

/// The decimal digits of `n`.
pub open spec fn decimal(n: nat) -> Seq<char>
    decreases n,
{
    if n < 10 {
        seq![(n + 48) as char]
    } else {
        decimal(n / 10) + seq![((n % 10) + 48) as char]
    }
}

/// The name of our port for sequencer channel `num`.
pub open spec fn channel_port_name(num: nat) -> Seq<char> {
    "octothorpe:channel_"@ + decimal(num)
}

/// The decimal digit `d`.
fn digit(d: u8) -> (r: &'static str)
    requires
        d < 10,
    ensures
        r@ == seq![(d + 48) as char],
{
    match d {
        0 => {
            proof {
                reveal_strlit("0");
            }
            "0"
        },
        1 => {
            proof {
                reveal_strlit("1");
            }
            "1"
        },
        2 => {
            proof {
                reveal_strlit("2");
            }
            "2"
        },
        3 => {
            proof {
                reveal_strlit("3");
            }
            "3"
        },
        4 => {
            proof {
                reveal_strlit("4");
            }
            "4"
        },
        5 => {
            proof {
                reveal_strlit("5");
            }
            "5"
        },
        6 => {
            proof {
                reveal_strlit("6");
            }
            "6"
        },
        7 => {
            proof {
                reveal_strlit("7");
            }
            "7"
        },
        8 => {
            proof {
                reveal_strlit("8");
            }
            "8"
        },
        _ => {
            proof {
                reveal_strlit("9");
            }
            "9"
        },
    }
}

/// Our port name for sequencer channel `num`, the number written in decimal.
fn channel_port(num: u8) -> (r: String)
    ensures
        r@ == channel_port_name(num as nat),
{
    let mut name = String::from_str("octothorpe:channel_");
    let ghost prefix = name@;
    if num >= 100 {
        name.append(digit(num / 100));
    }
    if num >= 10 {
        name.append(digit(num / 10 % 10));
    }
    name.append(digit(num % 10));
    proof {
        reveal_with_fuel(decimal, 3);
        if num >= 100 {
            assert(decimal((num / 10) as nat) =~= seq![((num / 100) + 48) as char] + seq![((num / 10 % 10) + 48) as char]);
        }
        assert(name@ =~= prefix + decimal(num as nat));
    }
    name
}

/// Whether a port carries `flag`.
pub open spec fn has_flag(port: PortInfo, flag: PortFlag) -> bool {
    match flag {
        PortFlag::IsInput => port.is_input,
        PortFlag::IsOutput => port.is_output,
    }
}

/// Whether a port is the controller port `designation` stands for: one of its aliases holds
/// the designation's pattern, and it carries the designation's flag.
pub open spec fn matches_designation(port: PortInfo, designation: PortDesignation) -> bool {
    &&& exists|i: int|
        0 <= i < port.aliases@.len() && holds_substring(
            #[trigger] port.aliases@[i]@,
            designation.alias_pattern@,
        )
    &&& has_flag(port, designation.flag)
}

/// Index of the first of `designations` that `port` matches, or -1.
pub open spec fn first_designation(designations: Seq<PortDesignation>, port: PortInfo) -> int
    decreases designations.len(),
{
    if designations.len() == 0 {
        -1
    } else {
        let before = first_designation(designations.drop_last(), port);
        if before >= 0 {
            before
        } else if matches_designation(port, designations.last()) {
            designations.len() - 1
        } else {
            -1
        }
    }
}

/// Where the number of a port name starts: just after its last `_`, or at its start when it
/// has none.
pub open spec fn number_start(name: Seq<char>) -> int
    decreases name.len(),
{
    if name.len() == 0 {
        0
    } else if name.last() == '_' {
        name.len() as int
    } else {
        number_start(name.drop_last())
    }
}

/// The number of a port name: what follows its last `_`, or the whole name.
pub open spec fn port_number(name: Seq<char>) -> Seq<char> {
    name.subrange(number_start(name), name.len() as int)
}

/// Whether the physical port `target` gets connected to `port` by default: it carries MIDI the
/// other way, it is not the other half of the same device port (the same number), and it is
/// no controller port.
pub open spec fn default_target(designations: Seq<PortDesignation>, port: PortInfo, target: PortInfo) -> bool {
    let flag = if port.is_output {
        PortFlag::IsInput
    } else {
        PortFlag::IsOutput
    };
    &&& has_flag(target, flag)
    &&& port_number(target.name@) != port_number(port.name@)
    &&& first_designation(designations, target) < 0
}

/// The names, in order, of the ports among `targets` that get connected to `port` by
/// default.
pub open spec fn default_target_names(
    designations: Seq<PortDesignation>,
    port: PortInfo,
    targets: Seq<PortInfo>,
) -> Seq<Seq<char>>
    decreases targets.len(),
{
    if targets.len() == 0 {
        Seq::empty()
    } else {
        let rest = default_target_names(designations, port, targets.drop_last());
        if default_target(designations, port, targets.last()) {
            rest.push(targets.last().name@)
        } else {
            rest
        }
    }
}

/// The names of the ports of our 16 sequencer channels.
pub open spec fn channel_port_names() -> Seq<Seq<char>> {
    Seq::new(16, |i: int| channel_port_name(i as nat))
}

/// The views of some strings.
pub open spec fn names_of(names: Seq<String>) -> Seq<Seq<char>> {
    names.map_values(|name: String| name@)
}

/// Where ports get connected: controller ports to ours, other MIDI ports to each other and to
/// our sequencer channels.
pub struct Router {
    pub port_designations: Vec<PortDesignation>,
}

/// Where the number in `name` starts.
fn number_start_of(name: &str) -> (r: usize)
    ensures
        r == number_start(name@),
{
    let n = name.unicode_len();
    let mut start: usize = 0;
    let mut i: usize = 0;
    while i < n
        invariant
            0 <= i <= n,
            n == name@.len(),
            start == number_start(name@.take(i as int)),
        decreases n - i,
    {
        assert(name@.take(i + 1).drop_last() =~= name@.take(i as int));
        if name.get_char(i) == '_' {
            start = i + 1;
        }
        i += 1;
    }
    assert(name@.take(i as int) =~= name@);
    start
}

proof fn lemma_number_start_bounds(name: Seq<char>)
    ensures
        0 <= number_start(name) <= name.len(),
    decreases name.len(),
{
    if name.len() > 0 && name.last() != '_' {
        lemma_number_start_bounds(name.drop_last());
    }
}

/// Whether two port names end in the same number.
fn same_port_number(a: &str, b: &str) -> (r: bool)
    ensures
        r == (port_number(a@) == port_number(b@)),
{
    let start_a = number_start_of(a);
    let start_b = number_start_of(b);
    proof {
        lemma_number_start_bounds(a@);
        lemma_number_start_bounds(b@);
    }
    let na = a.unicode_len();
    let nb = b.unicode_len();
    if na - start_a != nb - start_b {
        assert(port_number(a@).len() != port_number(b@).len());
        return false;
    }
    let mut k: usize = 0;
    while k < na - start_a
        invariant
            start_a == number_start(a@),
            start_b == number_start(b@),
            0 <= start_a <= na,
            0 <= start_b <= nb,
            na == a@.len(),
            nb == b@.len(),
            na - start_a == nb - start_b,
            0 <= k <= na - start_a,
            forall|j: int| 0 <= j < k ==> port_number(a@)[j] == port_number(b@)[j],
        decreases na - start_a - k,
    {
        if a.get_char(start_a + k) != b.get_char(start_b + k) {
            assert(port_number(a@)[k as int] != port_number(b@)[k as int]);
            return false;
        }
        k += 1;
    }
    assert(port_number(a@) =~= port_number(b@));
    true
}

impl Router {
    /// The controller ports we know: the outputs of an APC40 or APC20 go to our input for it,
    /// and our output for it goes to its inputs.
    pub fn new() -> (r: Self)
        ensures
            r.port_designations@.len() == 4,
            r.port_designations@[0].alias_pattern@ == "APC40"@,
            r.port_designations@[0].flag == PortFlag::IsOutput,
            r.port_designations@[0].target_port@ == "octothorpe:apc40_in"@,
            r.port_designations@[1].alias_pattern@ == "APC40"@,
            r.port_designations@[1].flag == PortFlag::IsInput,
            r.port_designations@[1].target_port@ == "octothorpe:apc40_out"@,
            r.port_designations@[2].alias_pattern@ == "APC20"@,
            r.port_designations@[2].flag == PortFlag::IsOutput,
            r.port_designations@[2].target_port@ == "octothorpe:apc20_in"@,
            r.port_designations@[3].alias_pattern@ == "APC20"@,
            r.port_designations@[3].flag == PortFlag::IsInput,
            r.port_designations@[3].target_port@ == "octothorpe:apc20_out"@,
    {
        let mut port_designations: Vec<PortDesignation> = Vec::new();
        port_designations.push(
            PortDesignation {
                alias_pattern: String::from_str("APC40"),
                flag: PortFlag::IsOutput,
                target_port: String::from_str("octothorpe:apc40_in"),
            },
        );
        port_designations.push(
            PortDesignation {
                alias_pattern: String::from_str("APC40"),
                flag: PortFlag::IsInput,
                target_port: String::from_str("octothorpe:apc40_out"),
            },
        );
        port_designations.push(
            PortDesignation {
                alias_pattern: String::from_str("APC20"),
                flag: PortFlag::IsOutput,
                target_port: String::from_str("octothorpe:apc20_in"),
            },
        );
        port_designations.push(
            PortDesignation {
                alias_pattern: String::from_str("APC20"),
                flag: PortFlag::IsInput,
                target_port: String::from_str("octothorpe:apc20_out"),
            },
        );
        Router { port_designations }
    }

    /// Whether one of the aliases of `port` names an APC40: a controller port that comes back
    /// belongs to the APC40 then, to the APC20 otherwise.
    pub fn is_apc40_port(port: &PortInfo) -> (r: bool)
        ensures
            r == exists|j: int| 0 <= j < port.aliases@.len() && holds_substring(#[trigger] port.aliases@[j]@, "APC40"@),
    {
        let mut i: usize = 0;
        while i < port.aliases.len()
            invariant
                0 <= i <= port.aliases@.len(),
                forall|j: int| 0 <= j < i ==> !holds_substring(#[trigger] port.aliases@[j]@, "APC40"@),
            decreases port.aliases@.len() - i,
        {
            if str_contains(port.aliases[i].as_str(), "APC40") {
                return true;
            }
            i += 1;
        }
        false
    }

    /// Whether `port` is the controller port `port_designation` stands for.
    pub fn matches_port_designation(port: &PortInfo, port_designation: &PortDesignation) -> (r: bool)
        ensures
            r == matches_designation(*port, *port_designation),
    {
        let mut has_alias_with_pattern = false;
        let mut i: usize = 0;
        while i < port.aliases.len()
            invariant
                0 <= i <= port.aliases@.len(),
                has_alias_with_pattern == exists|j: int|
                    0 <= j < i && holds_substring(
                        #[trigger] port.aliases@[j]@,
                        port_designation.alias_pattern@,
                    ),
            decreases port.aliases@.len() - i,
        {
            if str_contains(port.aliases[i].as_str(), port_designation.alias_pattern.as_str()) {
                has_alias_with_pattern = true;
            }
            i += 1;
        }
        let has_flag = match port_designation.flag {
            PortFlag::IsInput => port.is_input,
            PortFlag::IsOutput => port.is_output,
        };
        has_alias_with_pattern && has_flag
    }

    /// Index of the first controller port designation `port` matches.
    fn designation_of(&self, port: &PortInfo) -> (r: Option<usize>)
        ensures
            match r {
                Some(i) => i as int == first_designation(self.port_designations@, *port) && i
                    < self.port_designations@.len(),
                None => first_designation(self.port_designations@, *port) < 0,
            },
    {
        let mut i: usize = 0;
        while i < self.port_designations.len()
            invariant
                0 <= i <= self.port_designations@.len(),
                first_designation(self.port_designations@.take(i as int), *port) < 0,
            decreases self.port_designations@.len() - i,
        {
            assert(self.port_designations@.take(i + 1).drop_last() =~= self.port_designations@.take(
                i as int,
            ));
            if Self::matches_port_designation(port, &self.port_designations[i]) {
                proof {
                    lemma_first_designation_prefix(self.port_designations@, *port, i + 1);
                }
                assert(i < self.port_designations@.len());
                return Some(i);
            }
            i += 1;
        }
        assert(self.port_designations@.take(i as int) =~= self.port_designations@);
        None
    }

    /// The port of ours that `port` connects to when it is a controller port we know.
    pub fn controller_target_port(&self, port: &PortInfo) -> (r: Option<String>)
        ensures
            ({
                let i = first_designation(self.port_designations@, *port);
                if i >= 0 {
                    r is Some && r.unwrap()@ == self.port_designations@[i].target_port@
                } else {
                    r is None
                }
            }),
    {
        match self.designation_of(port) {
            Some(i) => Some(self.port_designations[i].target_port.clone()),
            None => None,
        }
    }

    /// The ports `port` connects to when it is no controller port: the physical MIDI ports
    /// among `physical_ports` that carry MIDI the other way, except the other half of the same
    /// device port and controller ports; and, for a port taking MIDI in, our 16 sequencer
    /// channels.
    pub fn default_target_ports(&self, port: &PortInfo, physical_ports: &[PortInfo]) -> (r: Vec<String>)
        ensures
            names_of(r@) == default_target_names(self.port_designations@, *port, physical_ports@)
                + if port.is_input {
                channel_port_names()
            } else {
                Seq::empty()
            },
    {
        let mut ports: Vec<String> = Vec::new();
        let mut i: usize = 0;
        while i < physical_ports.len()
            invariant
                0 <= i <= physical_ports@.len(),
                names_of(ports@) == default_target_names(
                    self.port_designations@,
                    *port,
                    physical_ports@.take(i as int),
                ),
            decreases physical_ports@.len() - i,
        {
            assert(physical_ports@.take(i + 1).drop_last() =~= physical_ports@.take(i as int));
            let target = &physical_ports[i];
            let is_opposite_port = if port.is_output {
                target.is_input
            } else {
                target.is_output
            };
            let is_same_port_number = same_port_number(target.name.as_str(), port.name.as_str());
            let is_designated_port = self.designation_of(target).is_some();
            if is_opposite_port && !is_same_port_number && !is_designated_port {
                let ghost before = ports@;
                ports.push(target.name.clone());
                assert(names_of(ports@) =~= names_of(before).push(target.name@));
            }
            i += 1;
        }
        assert(physical_ports@.take(i as int) =~= physical_ports@);
        let ghost defaults = names_of(ports@);
        if port.is_input {
            let mut num: u8 = 0;
            while num < 16
                invariant
                    0 <= num <= 16,
                    port.is_input,
                    names_of(ports@) == defaults + channel_port_names().take(num as int),
                decreases 16 - num,
            {
                let ghost before = ports@;
                ports.push(channel_port(num));
                assert(names_of(ports@) =~= names_of(before).push(channel_port_name(num as nat)));
                assert(channel_port_names().take(num + 1) =~= channel_port_names().take(num as int).push(
                    channel_port_name(num as nat),
                ));
                num += 1;
            }
            assert(channel_port_names().take(16) =~= channel_port_names());
        } else {
            assert(names_of(ports@) =~= defaults + Seq::<Seq<char>>::empty());
        }
        ports
    }

    /// Where a port that registered connects to, and whether it is a controller port, which
    /// then has to be introduced to again. A port that went away connects nowhere.
    pub fn handle_port_registration(&self, port: &PortInfo, physical_ports: &[PortInfo], is_registered: bool) -> (r: (
        Vec<String>,
        bool,
    ))
        ensures
            !is_registered ==> r.0@.len() == 0 && !r.1,
            is_registered && first_designation(self.port_designations@, *port) >= 0 ==> {
                &&& r.1
                &&& names_of(r.0@) == seq![self.port_designations@[first_designation(self.port_designations@, *port)].target_port@]
            },
            is_registered && first_designation(self.port_designations@, *port) < 0 ==> {
                &&& !r.1
                &&& names_of(r.0@) == default_target_names(self.port_designations@, *port, physical_ports@)
                    + if port.is_input {
                    channel_port_names()
                } else {
                    Seq::empty()
                }
            },
    {
        if !is_registered {
            return (Vec::new(), false);
        }
        match self.controller_target_port(port) {
            Some(target_port) => {
                let mut targets: Vec<String> = Vec::new();
                targets.push(target_port);
                assert(names_of(targets@) =~= seq![targets@[0]@]);
                (targets, true)
            },
            None => (self.default_target_ports(port, physical_ports), false),
        }
    }
}

/// The first designation of a list is the first one of any longer list that starts with it.
proof fn lemma_first_designation_prefix(designations: Seq<PortDesignation>, port: PortInfo, n: int)
    requires
        0 < n <= designations.len(),
        first_designation(designations.take(n - 1), port) < 0,
        matches_designation(port, designations[n - 1]),
    ensures
        first_designation(designations, port) == n - 1,
    decreases designations.len(),
{
    assert(designations.take(n).drop_last() =~= designations.take(n - 1));
    assert(first_designation(designations.take(n), port) == n - 1);
    if n < designations.len() {
        assert(designations.drop_last().take(n) =~= designations.take(n));
        assert(designations.drop_last().take(n - 1) =~= designations.take(n - 1));
        lemma_first_designation_prefix(designations.drop_last(), port, n);
    } else {
        assert(designations.take(n) =~= designations);
    }
}

} // verus!
