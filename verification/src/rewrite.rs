//! The manifest rewriter: a playlist body is taken line by line, directives
//! and blank lines pass through, and every URI line is resolved against the
//! target URL and replaced by a proxied URL that routes the fetch back
//! through this proxy.

use vstd::prelude::*;
use crate::ascii::is_ws_byte;
use crate::ascii::spec_trim;
use crate::ascii::trim_back;
use crate::ascii::trim_front;
use crate::codec;
use crate::foreign::resolved;
use crate::foreign::url_parseable;

verus! {

/// The index of the first line feed, or the length where there is none.
pub open spec fn idx_of_nl(s: Seq<u8>) -> int
    decreases s.len(),
{
    if s.len() == 0 {
        0
    } else if s[0] == 10 {
        0
    } else {
        1 + idx_of_nl(s.skip(1))
    }
}

pub proof fn lemma_idx_of_nl_bounds(s: Seq<u8>)
    ensures
        0 <= idx_of_nl(s) <= s.len(),
        idx_of_nl(s) < s.len() ==> s[idx_of_nl(s)] == 10,
        forall|j: int| 0 <= j < idx_of_nl(s) ==> s[j] != 10,
    decreases s.len(),
{
    if s.len() == 0 {
    } else if s[0] == 10 {
    } else {
        lemma_idx_of_nl_bounds(s.skip(1));
        assert forall|j: int| 0 <= j < idx_of_nl(s) implies s[j] != 10 by {
            if j > 0 {
                assert(s.skip(1)[j - 1] == s[j]);
            }
        }
    }
}

/// The first line feed is where the bytes say it is.
pub proof fn lemma_idx_of_nl_at(s: Seq<u8>, m: int)
    requires
        0 <= m <= s.len(),
        forall|j: int| 0 <= j < m ==> s[j] != 10,
        m < s.len() ==> s[m] == 10,
    ensures
        idx_of_nl(s) == m,
    decreases m,
{
    if m == 0 {
    } else {
        assert(s[0] != 10);
        lemma_idx_of_nl_at(s.skip(1), m - 1);
    }
}

/// One trailing carriage return is dropped, as the line split of the source
/// text drops it.
pub open spec fn strip_cr(line: Seq<u8>) -> Seq<u8> {
    if line.len() > 0 && line[line.len() - 1] == 13 {
        line.drop_last()
    } else {
        line
    }
}

/// The body split at line feeds; a trailing line feed opens no empty line.
pub open spec fn lines_of(s: Seq<u8>) -> Seq<Seq<u8>>
    decreases s.len(),
    via lines_of_dec
{
    if s.len() == 0 {
        Seq::empty()
    } else {
        let k = idx_of_nl(s);
        let rest = if k >= s.len() {
            Seq::<u8>::empty()
        } else {
            s.skip(k + 1)
        };
        seq![s.take(k)] + lines_of(rest)
    }
}

#[via_fn]
proof fn lines_of_dec(s: Seq<u8>) {
    lemma_idx_of_nl_bounds(s);
}

/// Splitting a line with no line feed off the front of a body.
pub proof fn lemma_lines_of_prepend(line: Seq<u8>, rest: Seq<u8>)
    requires
        forall|j: int| 0 <= j < line.len() ==> line[j] != 10,
    ensures
        lines_of(line + seq![10u8] + rest) == seq![line] + lines_of(rest),
{
    let s = line + seq![10u8] + rest;
    assert(s.len() == line.len() + 1 + rest.len());
    assert forall|j: int| 0 <= j < line.len() implies s[j] != 10 by {
        assert(s[j] == line[j]);
    }
    assert(s[line.len() as int] == 10);
    lemma_idx_of_nl_at(s, line.len() as int);
    assert(s.take(line.len() as int) =~= line);
    assert(s.skip(line.len() as int + 1) =~= rest);
    assert(lines_of(s) =~= seq![line] + lines_of(rest));
}

/// "/proxy?url="
pub open spec fn proxy_path() -> Seq<u8> {
    seq![47u8, 112u8, 114u8, 111u8, 120u8, 121u8, 63u8, 117u8, 114u8, 108u8, 61u8]
}

/// "&cookie="
pub open spec fn cookie_sep() -> Seq<u8> {
    seq![38u8, 99u8, 111u8, 111u8, 107u8, 105u8, 101u8, 61u8]
}

/// The proxied form of one resolved target: the proxy's own base, the proxy
/// route, the encoded absolute URL, and the encoded cookie carried along
/// unchanged.
pub open spec fn spec_proxied_line(abs: Seq<u8>, cookie: Seq<u8>, proxy: Seq<u8>) -> Seq<u8> {
    proxy + proxy_path() + codec::spec_encode(abs) + cookie_sep() + cookie
}

/// One manifest line: blank lines and `#` directives pass through with at
/// most a trailing carriage return dropped; anything else is a URI reference,
/// resolved against the target URL and re-proxied. A reference that does not
/// resolve fails the whole manifest.
pub open spec fn line_rewrite(line: Seq<u8>, base: Seq<u8>, cookie: Seq<u8>, proxy: Seq<u8>) -> Option<
    Seq<u8>,
> {
    let l = strip_cr(line);
    let t = spec_trim(l);
    if t.len() == 0 || (l.len() > 0 && l[0] == 35) {
        Option::Some(l)
    } else {
        match resolved(base, t) {
            Option::Some(abs) => Option::Some(spec_proxied_line(abs, cookie, proxy)),
            Option::None => Option::None,
        }
    }
}

/// The whole body, line by line in original order, a line feed appended
/// after every line including the last.
pub open spec fn spec_rewrite_lines(s: Seq<u8>, base: Seq<u8>, cookie: Seq<u8>, proxy: Seq<u8>) -> Option<
    Seq<u8>,
>
    decreases s.len(),
    via spec_rewrite_lines_dec
{
    if s.len() == 0 {
        Option::Some(Seq::<u8>::empty())
    } else {
        let k = idx_of_nl(s);
        let rest = if k >= s.len() {
            Seq::<u8>::empty()
        } else {
            s.skip(k + 1)
        };
        match line_rewrite(s.take(k), base, cookie, proxy) {
            Option::Some(ol) => match spec_rewrite_lines(rest, base, cookie, proxy) {
                Option::Some(orest) => Option::Some(ol + seq![10u8] + orest),
                Option::None => Option::None,
            },
            Option::None => Option::None,
        }
    }
}

#[via_fn]
proof fn spec_rewrite_lines_dec(s: Seq<u8>, base: Seq<u8>, cookie: Seq<u8>, proxy: Seq<u8>) {
    lemma_idx_of_nl_bounds(s);
}

/// The manifest path as a whole: it fails where the target URL itself does
/// not parse, and otherwise rewrites line by line.
pub open spec fn spec_rewrite(body: Seq<u8>, base: Seq<u8>, cookie: Seq<u8>, proxy: Seq<u8>) -> Option<
    Seq<u8>,
> {
    if url_parseable(base) {
        spec_rewrite_lines(body, base, cookie, proxy)
    } else {
        Option::None
    }
}

/// What a line of a rewritten manifest may be: blank, a `#` directive, or a
/// proxied URL of the fixed form.
pub open spec fn passthrough_or_proxied(l: Seq<u8>, cookie: Seq<u8>, proxy: Seq<u8>) -> bool {
    spec_trim(l).len() == 0 || (l.len() > 0 && l[0] == 35) || (exists|abs: Seq<u8>|
        l == #[trigger] spec_proxied_line(abs, cookie, proxy))
}

proof fn lemma_fixed_parts_plain()
    ensures
        forall|j: int| 0 <= j < proxy_path().len() ==> #[trigger] proxy_path()[j] != 10,
        forall|j: int| 0 <= j < cookie_sep().len() ==> #[trigger] cookie_sep()[j] != 10,
{
}

/// A rewritten manifest holds no bare line: every line of it is blank, a
/// `#` directive carried over, or a proxied URL of the fixed form — provided
/// the proxy base and the encoded cookie hold no line feed themselves.
pub proof fn lemma_rewritten_manifest_shape(
    body: Seq<u8>,
    base: Seq<u8>,
    cookie: Seq<u8>,
    proxy: Seq<u8>,
)
    requires
        forall|j: int| 0 <= j < cookie.len() ==> cookie[j] != 10,
        forall|j: int| 0 <= j < proxy.len() ==> proxy[j] != 10,
        spec_rewrite_lines(body, base, cookie, proxy) is Some,
    ensures
        forall|i: int|
            0 <= i < lines_of(spec_rewrite_lines(body, base, cookie, proxy).unwrap()).len()
                ==> passthrough_or_proxied(
                #[trigger] lines_of(spec_rewrite_lines(body, base, cookie, proxy).unwrap())[i],
                cookie,
                proxy,
            ),
    decreases body.len(),
{
    let out = spec_rewrite_lines(body, base, cookie, proxy).unwrap();
    if body.len() == 0 {
        assert(out =~= Seq::<u8>::empty());
    } else {
        lemma_idx_of_nl_bounds(body);
        let k = idx_of_nl(body);
        let line = body.take(k);
        let rest = if k >= body.len() {
            Seq::<u8>::empty()
        } else {
            body.skip(k + 1)
        };
        let ol = line_rewrite(line, base, cookie, proxy).unwrap();
        let orest = spec_rewrite_lines(rest, base, cookie, proxy).unwrap();
        assert(out == ol + seq![10u8] + orest);
        lemma_rewritten_manifest_shape(rest, base, cookie, proxy);
        let l = strip_cr(line);
        let t = spec_trim(l);
        if t.len() == 0 || (l.len() > 0 && l[0] == 35) {
            assert(ol == l);
            assert forall|j: int| 0 <= j < ol.len() implies ol[j] != 10 by {
                assert(l[j] == line[j]);
                assert(line[j] == body[j]);
            }
            assert(passthrough_or_proxied(ol, cookie, proxy));
        } else {
            let abs = resolved(base, t).unwrap();
            assert(ol == spec_proxied_line(abs, cookie, proxy));
            lemma_fixed_parts_plain();
            codec::lemma_encode_plain(abs);
            assert forall|j: int| 0 <= j < ol.len() implies ol[j] != 10 by {
                let a1 = proxy + proxy_path();
                let a2 = a1 + codec::spec_encode(abs);
                let a3 = a2 + cookie_sep();
                assert(ol == a3 + cookie);
                if j < proxy.len() {
                    assert(ol[j] == proxy[j]);
                } else if j < a1.len() {
                    assert(ol[j] == proxy_path()[j - proxy.len()]);
                } else if j < a2.len() {
                    assert(ol[j] == codec::spec_encode(abs)[j - a1.len()]);
                } else if j < a3.len() {
                    assert(ol[j] == cookie_sep()[j - a2.len()]);
                } else {
                    assert(ol[j] == cookie[j - a3.len()]);
                }
            }
            assert(passthrough_or_proxied(ol, cookie, proxy));
        }
        lemma_lines_of_prepend(ol, orest);
        assert(lines_of(out) == seq![ol] + lines_of(orest));
        assert forall|i: int| 0 <= i < lines_of(out).len() implies passthrough_or_proxied(
            #[trigger] lines_of(out)[i],
            cookie,
            proxy,
        ) by {
            if i == 0 {
                assert(lines_of(out)[0] == ol);
            } else {
                assert(lines_of(out)[i] == lines_of(orest)[i - 1]);
            }
        }
    }
}

/// A URI line's proxied form carries exactly the resolved absolute URL: the
/// target encoded into the rewritten line decodes back to the resolution of
/// the trimmed line against the original target URL.
pub proof fn lemma_proxied_line_target(line: Seq<u8>, base: Seq<u8>, cookie: Seq<u8>, proxy: Seq<u8>)
    requires
        spec_trim(strip_cr(line)).len() > 0,
        !(strip_cr(line).len() > 0 && strip_cr(line)[0] == 35),
        resolved(base, spec_trim(strip_cr(line))) is Some,
    ensures
        line_rewrite(line, base, cookie, proxy) == Option::Some(
            spec_proxied_line(
                resolved(base, spec_trim(strip_cr(line))).unwrap(),
                cookie,
                proxy,
            ),
        ),
        codec::spec_decode(
            codec::spec_encode(resolved(base, spec_trim(strip_cr(line))).unwrap()),
        ) == Option::Some(resolved(base, spec_trim(strip_cr(line))).unwrap()),
{
    codec::lemma_roundtrip(resolved(base, spec_trim(strip_cr(line))).unwrap());
}

/// The bounds of a byte string with its surrounding ASCII whitespace dropped.
pub fn trim_bounds(l: &[u8]) -> (r: (usize, usize))
    ensures
        r.0 <= r.1 <= l@.len(),
        spec_trim(l@) == l@.subrange(r.0 as int, r.1 as int),
{
    let mut a: usize = 0;
    proof {
        assert(l@.skip(0) =~= l@);
    }
    while a < l.len() && is_ws_byte(l[a])
        invariant
            a <= l.len(),
            trim_front(l@) == trim_front(l@.skip(a as int)),
        decreases l.len() - a,
    {
        proof {
            let t = l@.skip(a as int);
            assert(t[0] == l@[a as int]);
            assert(t.skip(1) =~= l@.skip(a as int + 1));
        }
        a += 1;
    }
    proof {
        let t = l@.skip(a as int);
        if t.len() > 0 {
            assert(t[0] == l@[a as int]);
        }
        assert(trim_front(l@) == t);
    }
    let mut b: usize = l.len();
    proof {
        assert(l@.skip(a as int).take((b - a) as int) =~= l@.skip(a as int));
    }
    while b > a && is_ws_byte(l[b - 1])
        invariant
            a <= b <= l.len(),
            trim_back(l@.skip(a as int)) == trim_back(l@.skip(a as int).take((b - a) as int)),
        decreases b,
    {
        proof {
            let t = l@.skip(a as int).take((b - a) as int);
            assert(t.len() == b - a);
            assert(t[(b - a - 1) as int] == l@[b as int - 1]);
            assert(t.drop_last() =~= l@.skip(a as int).take((b - a - 1) as int));
        }
        b -= 1;
    }
    proof {
        let t = l@.skip(a as int).take((b - a) as int);
        if t.len() > 0 {
            assert(t[(b - a - 1) as int] == l@[b as int - 1]);
        }
        assert(trim_back(l@.skip(a as int)) == t);
        assert(spec_trim(l@) == trim_back(trim_front(l@)));
        assert(t =~= l@.subrange(a as int, b as int));
    }
    (a, b)
}

/// Rewrites a playlist body against its target URL. `Ok` carries the whole
/// rewritten document; any line that fails to resolve, or a target URL that
/// does not itself parse, fails the whole manifest.
#[verifier::rlimit(100)]
pub fn rewrite_manifest(body: &[u8], base: &[u8], encoded_cookie: &[u8], proxy_base: &[u8]) -> (r:
    Result<Vec<u8>, crate::errors::ProxyError>)
    ensures
        (match r {
            Result::Ok(v) => spec_rewrite(body@, base@, encoded_cookie@, proxy_base@) == Option::Some(
                v@,
            ),
            Result::Err(e) => spec_rewrite(body@, base@, encoded_cookie@, proxy_base@) is None && e
                == crate::errors::ProxyError::RewriteFailure,
        }),
{
    if !crate::foreign::parse_ok(base) {
        return Result::Err(crate::errors::ProxyError::RewriteFailure);
    }
    let path: Vec<u8> = vec![
        47u8, 112u8, 114u8, 111u8, 120u8, 121u8, 63u8, 117u8, 114u8, 108u8, 61u8,
    ];
    let sep: Vec<u8> = vec![38u8, 99u8, 111u8, 111u8, 107u8, 105u8, 101u8, 61u8];
    let mut out: Vec<u8> = Vec::new();
    let mut pos: usize = 0;
    proof {
        assert(path@ =~= proxy_path());
        assert(sep@ =~= cookie_sep());
        assert(body@.skip(0) =~= body@);
        assert forall|t: Seq<u8>|
            spec_rewrite_lines(body@.skip(0), base@, encoded_cookie@, proxy_base@)
                == Option::Some::<Seq<u8>>(t) implies spec_rewrite_lines(
            body@,
            base@,
            encoded_cookie@,
            proxy_base@,
        ) == Option::Some(Seq::<u8>::empty() + t) by {
            assert(Seq::<u8>::empty() + t =~= t);
        }
    }
    while pos < body.len()
        invariant
            pos <= body.len(),
            path@ == proxy_path(),
            sep@ == cookie_sep(),
            forall|t: Seq<u8>|
                spec_rewrite_lines(body@.skip(pos as int), base@, encoded_cookie@, proxy_base@)
                    == Option::Some::<Seq<u8>>(t) ==> spec_rewrite_lines(
                    body@,
                    base@,
                    encoded_cookie@,
                    proxy_base@,
                ) == Option::Some(out@ + t),
            spec_rewrite_lines(body@.skip(pos as int), base@, encoded_cookie@, proxy_base@)
                is None ==> spec_rewrite_lines(body@, base@, encoded_cookie@, proxy_base@) is None,
        decreases body.len() - pos,
    {
        let mut k: usize = pos;
        while k < body.len() && body[k] != 10
            invariant
                pos <= k <= body.len(),
                forall|j: int| pos <= j < k ==> body@[j] != 10,
            decreases body.len() - k,
        {
            k += 1;
        }
        let ghost tseq = body@.skip(pos as int);
        proof {
            assert forall|j: int| 0 <= j < k - pos implies tseq[j] != 10 by {
                assert(tseq[j] == body@[pos + j]);
            }
            if k < body.len() {
                assert(tseq[k - pos as int] == body@[k as int]);
            }
            lemma_idx_of_nl_at(tseq, k - pos as int);
            assert(tseq.take(k - pos as int) =~= body@.subrange(pos as int, k as int));
        }
        let ghost line = body@.subrange(pos as int, k as int);
        let line_end: usize = if k > pos && body[k - 1] == 13 {
            k - 1
        } else {
            k
        };
        let ghost l = body@.subrange(pos as int, line_end as int);
        proof {
            if k > pos && body@[k as int - 1] == 13 {
                assert(line[line.len() - 1] == body@[k as int - 1]);
                assert(strip_cr(line) =~= l);
            } else {
                if line.len() > 0 {
                    assert(line[line.len() - 1] == body@[k as int - 1]);
                }
                assert(strip_cr(line) =~= l);
            }
        }
        let lslice = vstd::slice::slice_subrange(body, pos, line_end);
        let (a, b) = trim_bounds(lslice);
        let ghost trimmed = spec_trim(l);
        proof {
            assert(trimmed == l.subrange(a as int, b as int));
        }
        let ghost prev = out@;
        let ghost rest = if k >= body@.len() {
            Seq::<u8>::empty()
        } else {
            body@.skip(k as int + 1)
        };
        proof {
            if k < body@.len() {
                assert(tseq.skip((k - pos as int) + 1) =~= body@.skip(k as int + 1));
            } else {
                assert(tseq.skip(tseq.len() as int) =~= Seq::<u8>::empty());
            }
        }
        let ghost mut ghost_ol: Seq<u8> = Seq::empty();
        if b == a || (line_end > pos && body[pos] == 35) {
            proof {
                if line_end > pos {
                    assert(l[0] == body@[pos as int]);
                }
                assert(line_rewrite(line, base@, encoded_cookie@, proxy_base@) == Option::Some(l));
            }
            crate::ascii::push_slice(&mut out, lslice);
            out.push(10);
            proof {
                assert(out@ =~= prev + l + seq![10u8]);
                ghost_ol = l;
            }
        } else {
            let tslice = vstd::slice::slice_subrange(lslice, a, b);
            proof {
                assert(tslice@ =~= trimmed);
            }
            match crate::foreign::resolve_reference(base, tslice) {
                Option::None => {
                    proof {
                        assert(line_rewrite(line, base@, encoded_cookie@, proxy_base@) is None);
                        assert(spec_rewrite_lines(tseq, base@, encoded_cookie@, proxy_base@)
                            is None);
                    }
                    return Result::Err(crate::errors::ProxyError::RewriteFailure);
                },
                Option::Some(abs) => {
                    crate::ascii::push_slice(&mut out, proxy_base);
                    crate::ascii::push_slice(&mut out, path.as_slice());
                    let enc = codec::encode(abs.as_slice());
                    crate::ascii::push_slice(&mut out, enc.as_slice());
                    crate::ascii::push_slice(&mut out, sep.as_slice());
                    crate::ascii::push_slice(&mut out, encoded_cookie);
                    out.push(10);
                    proof {
                        let ol = spec_proxied_line(abs@, encoded_cookie@, proxy_base@);
                        assert(line_rewrite(line, base@, encoded_cookie@, proxy_base@)
                            == Option::Some(ol));
                        assert(out@ =~= prev + ol + seq![10u8]);
                        ghost_ol = ol;
                    }
                },
            }
        }
        proof {
            let ol = ghost_ol;
            assert(out@ == prev + ol + seq![10u8]);
            assert forall|u: Seq<u8>|
                spec_rewrite_lines(rest, base@, encoded_cookie@, proxy_base@) == Option::Some::<
                    Seq<u8>,
                >(u) implies spec_rewrite_lines(body@, base@, encoded_cookie@, proxy_base@)
                == Option::Some(out@ + u) by {
                assert(spec_rewrite_lines(tseq, base@, encoded_cookie@, proxy_base@)
                    == Option::Some(ol + seq![10u8] + u));
                assert(prev + (ol + seq![10u8] + u) =~= out@ + u);
            }
            if spec_rewrite_lines(rest, base@, encoded_cookie@, proxy_base@) is None {
                assert(spec_rewrite_lines(tseq, base@, encoded_cookie@, proxy_base@) is None);
            }
        }
        pos = if k < body.len() {
            k + 1
        } else {
            k
        };
    }
    proof {
        assert(body@.skip(body@.len() as int).len() == 0);
        assert(out@ + Seq::<u8>::empty() =~= out@);
    }
    Result::Ok(out)
}

} // verus!
