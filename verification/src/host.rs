use vstd::prelude::*;
use vstd::string::StringExecFns;

verus! {

/// The abstract value of a host address: its name and its port.
pub struct HostView {
    pub name: Seq<char>,
    pub port: u16,
}

/// A network address of a node, given by a host name (or IP) and a port.
#[derive(Debug, Clone, PartialEq, Eq, Hash)]
pub struct Host {
    pub name: String,
    pub port: u16,
}

impl View for Host {
    type V = HostView;

    open spec fn view(&self) -> HostView {
        HostView { name: self.name@, port: self.port }
    }
}

impl Host {
    /// Makes a host address out of a name and a port.
    pub fn new(name: &str, port: u16) -> (h: Host)
        ensures
            h@ == (HostView { name: name@, port }),
    {
        Host { name: name.to_string(), port }
    }

    /// A copy of this address.
    pub fn duplicate(&self) -> (h: Host)
        ensures
            h@ == self@,
    {
        Host { name: self.name.clone(), port: self.port }
    }

    /// Whether two addresses are the same: same name and same port.
    pub fn same_as(&self, other: &Host) -> (b: bool)
        ensures
            b == (self@ == other@),
    {
        self.port == other.port && self.name == other.name
    }
}

/// The addresses of a list, as plain values.
pub open spec fn host_views(v: Seq<Host>) -> Seq<HostView> {
    v.map_values(|h: Host| h@)
}

/// A copy of a list of addresses.
pub fn copy_hosts(v: &Vec<Host>) -> (r: Vec<Host>)
    ensures
        host_views(r@) == host_views(v@),
{
    let mut r: Vec<Host> = Vec::new();
    for i in 0..v.len()
        invariant
            r.len() == i,
            forall|j: int| 0 <= j < i ==> (#[trigger] r@[j])@ == v@[j]@,
    {
        r.push(v[i].duplicate());
    }
    assert(host_views(r@) =~= host_views(v@));
    r
}

/// Whether the list holds the address `h`.
pub fn contains_host(v: &Vec<Host>, h: &Host) -> (b: bool)
    ensures
        b == host_views(v@).contains(h@),
{
    let mut i: usize = 0;
    while i < v.len()
        invariant
            i <= v.len(),
            forall|j: int| 0 <= j < i ==> host_views(v@)[j] != h@,
        decreases v.len() - i,
    {
        if v[i].same_as(h) {
            assert(host_views(v@)[i as int] == h@);
            return true;
        }
        i = i + 1;
    }
    false
}

/// The decimal digit character for `d`, below ten.
pub open spec fn digit_char(d: nat) -> char {
    ('0' as nat + d) as char
}

/// The decimal writing of `n`, most significant digit first, without
/// leading zeros.
pub open spec fn decimal_text(n: nat) -> Seq<char>
    decreases n,
{
    if n < 10 {
        seq![digit_char(n)]
    } else {
        decimal_text(n / 10).push(digit_char(n % 10))
    }
}

/// The one-character text of the digit `d`.
fn digit_str(d: usize) -> (r: &'static str)
    requires
        d < 10,
    ensures
        r@ == seq![digit_char(d as nat)],
{
    proof {
        reveal_strlit("0");
        reveal_strlit("1");
        reveal_strlit("2");
        reveal_strlit("3");
        reveal_strlit("4");
        reveal_strlit("5");
        reveal_strlit("6");
        reveal_strlit("7");
        reveal_strlit("8");
        reveal_strlit("9");
    }
    if d == 0 {
        "0"
    } else if d == 1 {
        "1"
    } else if d == 2 {
        "2"
    } else if d == 3 {
        "3"
    } else if d == 4 {
        "4"
    } else if d == 5 {
        "5"
    } else if d == 6 {
        "6"
    } else if d == 7 {
        "7"
    } else if d == 8 {
        "8"
    } else {
        "9"
    }
}

/// The decimal writing of a port number.
pub fn port_text(port: u16) -> (r: String)
    ensures
        r@ == decimal_text(port as nat),
{
    number_text(port as usize)
}

/// The decimal writing of a number.
pub fn number_text(value: usize) -> (r: String)
    ensures
        r@ == decimal_text(value as nat),
{
    // the digits, least significant first
    let mut digits: Vec<usize> = Vec::new();
    let mut n: usize = value;
    digits.push(n % 10);
    while n >= 10
        invariant
            digits.len() >= 1,
            decimal_text(value as nat) == decimal_text(n as nat) + digits@.reverse().drop_first().map_values(
                |d: usize| digit_char(d as nat),
            ),
            digits@.last() == n % 10,
            forall|i: int| 0 <= i < digits.len() ==> #[trigger] digits@[i] < 10,
        decreases n,
    {
        let ghost before = digits@;
        n = n / 10;
        digits.push(n % 10);
        assert(digits@.reverse().drop_first() =~= before.reverse());
        assert(before.reverse() =~= seq![before.last()] + before.reverse().drop_first());
    }
    assert(digits@.reverse() =~= seq![n % 10] + digits@.reverse().drop_first());
    let mut text = String::new();
    let mut i: usize = digits.len();
    while i > 0
        invariant
            i <= digits.len(),
            forall|k: int| 0 <= k < digits.len() ==> #[trigger] digits@[k] < 10,
            text@ == digits@.subrange(i as int, digits.len() as int).reverse().map_values(
                |d: usize| digit_char(d as nat),
            ),
        decreases i,
    {
        let ghost before = text@;
        i = i - 1;
        text.append(digit_str(digits[i]));
        assert(digits@.subrange(i as int, digits.len() as int).reverse() =~= digits@.subrange(
            i + 1,
            digits.len() as int,
        ).reverse().push(digits@[i as int]));
    }
    assert(digits@.subrange(0, digits.len() as int) == digits@);
    text
}

impl Host {
    /// The address written as `NAME:PORT`.
    pub fn text(&self) -> (r: String)
        ensures
            r@ == self.name@ + ":"@ + decimal_text(self.port as nat),
    {
        let mut r = self.name.clone();
        r.append(":");
        let port = port_text(self.port);
        r.append(port.as_str());
        r
    }
}

} // verus!
