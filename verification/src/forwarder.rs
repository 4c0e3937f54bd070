use crate::context::GatewayContext;
use crate::http::{spec_header_lookup, spec_set_header, RequestData};
use crate::strutil::{chars_to_string, str_to_chars};
use vstd::prelude::*;
use vstd::string::StringExecFns;

verus! {

/// The position of the last colon in `s`, or a negative value when
/// there is none.
pub open spec fn spec_last_colon(s: Seq<char>) -> int
    decreases s.len(),
{
    if s.len() == 0 {
        -1int
    } else if s.last() == ':' {
        s.len() - 1
    } else {
        spec_last_colon(s.drop_last())
    }
}

/// The host part of a socket address string: everything before the last
/// colon, square brackets stripped, as `SocketAddr` renders addresses.
pub open spec fn spec_ip_of(addr: Seq<char>) -> Seq<char> {
    let k = spec_last_colon(addr);
    let core = if k >= 0 {
        addr.take(k)
    } else {
        addr
    };
    if core.len() >= 2 && core[0] == '[' && core.last() == ']' {
        core.subrange(1, core.len() - 1)
    } else {
        core
    }
}

/// The host part of a socket address string.
pub fn ip_of(addr: &str) -> (r: String)
    ensures
        r@ == spec_ip_of(addr@),
{
    let cs = str_to_chars(addr);
    let n = cs.len();
    let mut j: usize = n;
    let mut colon: Option<usize> = None;
    proof {
        assert(cs@.take(n as int) =~= cs@);
    }
    while j > 0 && colon.is_none()
        invariant
            j <= n,
            n == cs@.len(),
            cs@ == addr@,
            match colon {
                Some(k) => k < n && spec_last_colon(addr@) == k,
                None => spec_last_colon(addr@) == spec_last_colon(addr@.take(j as int)),
            },
        decreases j, (if colon is None { 1int } else { 0int }),
    {
        proof {
            assert(addr@.take(j as int).last() == addr@[j - 1]);
            assert(addr@.take(j as int).drop_last() =~= addr@.take(j - 1));
        }
        if cs[j - 1] == ':' {
            colon = Some(j - 1);
        } else {
            j = j - 1;
        }
    }
    proof {
        if colon is None {
            assert(addr@.take(0) =~= Seq::<char>::empty());
        }
    }
    let core_end = match colon {
        Some(k) => k,
        None => n,
    };
    let ghost core = if spec_last_colon(addr@) >= 0 {
        addr@.take(spec_last_colon(addr@))
    } else {
        addr@
    };
    proof {
        assert(addr@.take(n as int) =~= addr@);
        assert(core =~= addr@.take(core_end as int));
    }
    let stripped = core_end >= 2 && cs[0] == '[' && cs[core_end - 1] == ']';
    let mut out: Vec<char> = Vec::new();
    let start: usize = if stripped {
        1
    } else {
        0
    };
    let end: usize = if stripped {
        core_end - 1
    } else {
        core_end
    };
    let mut i = start;
    while i < end
        invariant
            start <= i <= end,
            end <= n,
            n == cs@.len(),
            out@ =~= cs@.subrange(start as int, i as int),
        decreases end - i,
    {
        out.push(cs[i]);
        assert(out@ =~= cs@.subrange(start as int, i + 1));
        i = i + 1;
    }
    proof {
        if stripped {
            assert(core[0] == '[' && core.last() == ']');
            assert(spec_ip_of(addr@) =~= cs@.subrange(start as int, end as int));
        } else {
            assert(spec_ip_of(addr@) =~= cs@.subrange(start as int, end as int));
        }
    }
    chars_to_string(&out)
}

/// The request headers after the proxy stamps its forwarding
/// information: the remote address appended to `X-Forwarded-For`, the
/// remote host in `X-Real-IP`, the original scheme in
/// `X-Forwarded-Proto`, and the original host, when known, in
/// `X-Forwarded-Host`.
pub open spec fn spec_proxy_headers(
    remote: Option<Seq<char>>,
    scheme: Seq<char>,
    host: Option<Seq<char>>,
    h0: Seq<(Seq<char>, Seq<char>)>,
) -> Seq<(Seq<char>, Seq<char>)> {
    let h1 = match remote {
        Some(a) => {
            let xff = match spec_header_lookup(h0, "x-forwarded-for"@) {
                Some(v) => v + ", "@ + a,
                None => a,
            };
            spec_set_header(
                spec_set_header(h0, "x-forwarded-for"@, xff),
                "x-real-ip"@,
                spec_ip_of(a),
            )
        },
        None => h0,
    };
    let h2 = spec_set_header(h1, "x-forwarded-proto"@, scheme);
    match host {
        Some(hh) => spec_set_header(h2, "x-forwarded-host"@, hh),
        None => h2,
    }
}

/// The view of an optional string.
pub open spec fn opt_view(o: Option<String>) -> Option<Seq<char>> {
    match o {
        Some(s) => Some(s@),
        None => None,
    }
}

/// Stamp the forwarding headers onto the outbound request.
pub fn append_proxy_headers(ctx: &GatewayContext, req: &mut RequestData)
    ensures
        final(req)@.headers == spec_proxy_headers(
            opt_view(ctx.remote_addr),
            ctx.orig_scheme@,
            opt_view(ctx.orig_host),
            old(req)@.headers,
        ),
        final(req).method == old(req).method,
        final(req).path == old(req).path,
        final(req).query == old(req).query,
{
    match &ctx.remote_addr {
        Some(remote_addr) => {
            let xff: String = match req.get_header("x-forwarded-for") {
                Some(exist) => {
                    let mut v = exist.clone();
                    v.append(", ");
                    v.append(remote_addr.as_str());
                    v
                },
                None => remote_addr.clone(),
            };
            req.set_header("x-forwarded-for", xff);
            let real_ip = ip_of(remote_addr.as_str());
            req.set_header("x-real-ip", real_ip);
        },
        None => {},
    }
    let proto = ctx.orig_scheme.clone();
    req.set_header("x-forwarded-proto", proto);
    match &ctx.orig_host {
        Some(host) => {
            let h = host.clone();
            req.set_header("x-forwarded-host", h);
        },
        None => {},
    }
}

} // verus!
