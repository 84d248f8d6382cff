use vstd::prelude::*;
use crate::value::{decimal, is_numeral, digits_value, push_decimal, scalar_text, shows_integer, law_integers_show_in_decimal, ScalarValue};

verus! {

/// The address to join a server at: a host given without a port (no `:` in
/// it) gets the server's default port.
pub open spec fn server_address(host: Seq<char>, port: u16) -> Seq<char> {
    if host.contains(':') {
        host
    } else {
        host + seq![':'] + decimal(port as nat)
    }
}

/// A host that names a port (holds a `:`) is kept as it is; any other host is
/// followed by `:` and the port in decimal.
pub proof fn law_port_added_only_when_missing(host: Seq<char>, port: u16)
    ensures
        host.contains(':') ==> server_address(host, port) == host,
        !host.contains(':') ==> {
            let a = server_address(host, port);
            &&& a.take(host.len() as int) == host
            &&& a[host.len() as int] == ':'
            &&& is_numeral(a.skip(host.len() as int + 1))
            &&& digits_value(a.skip(host.len() as int + 1)) == port as int
        },
{
    law_integers_show_in_decimal(ScalarValue::U16(port));
    assert(scalar_text(ScalarValue::U16(port)) == decimal(port as nat));
    assert(shows_integer(decimal(port as nat), port as int));
    if !host.contains(':') {
        let a = server_address(host, port);
        assert(a.take(host.len() as int) =~= host);
        assert(a.skip(host.len() as int + 1) =~= decimal(port as nat));
    }
}

/// Adds the default port to a host that names none.
pub fn host_with_default_port(host: &str, port: u16) -> (res: String)
    ensures
        res@ == server_address(host@, port),
{
    let n = host.unicode_len();
    let mut i: usize = 0;
    while i < n
        invariant
            i <= n,
            n == host@.len(),
            forall|j: int| 0 <= j < i ==> host@[j] != ':',
        decreases n - i,
    {
        if host.get_char(i) == ':' {
            assert(host@.contains(':')) by {
                assert(host@[i as int] == ':');
            }
            return String::from_str(host);
        }
        i = i + 1;
    }
    let mut out = String::from_str(host);
    out.append(":");
    proof {
        reveal_strlit(":");
    }
    push_decimal(&mut out, port as u128);
    assert(out@ =~= server_address(host@, port));
    out
}

} // verus!
