//! Response classification and header hygiene: playlist detection from
//! `Content-Type`, the copy-all-but filter that drops the upstream framing
//! headers, the forced `Accept-Ranges`, and the recomputed `Content-Length`
//! of the manifest path.

use vstd::prelude::*;
use crate::ascii::copy_bytes;
use crate::ascii::eq_ignore_case;
use crate::ascii::lower_seq;
use crate::ascii::push_dec;
use crate::ascii::spec_dec;
use vstd::slice::slice_subrange;

verus! {

/// The name and value views of a header list.
pub open spec fn views_of(hs: Seq<(Vec<u8>, Vec<u8>)>) -> Seq<(Seq<u8>, Seq<u8>)> {
    Seq::new(hs.len(), |i: int| (hs[i].0@, hs[i].1@))
}

/// "transfer-encoding"
pub open spec fn transfer_encoding_name() -> Seq<u8> {
    seq![
        116u8, 114u8, 97u8, 110u8, 115u8, 102u8, 101u8, 114u8, 45u8, 101u8, 110u8, 99u8, 111u8,
        100u8, 105u8, 110u8, 103u8,
    ]
}

/// "content-length"
pub open spec fn content_length_name() -> Seq<u8> {
    seq![99u8, 111u8, 110u8, 116u8, 101u8, 110u8, 116u8, 45u8, 108u8, 101u8, 110u8, 103u8, 116u8, 104u8]
}

/// "content-type"
pub open spec fn content_type_name() -> Seq<u8> {
    seq![99u8, 111u8, 110u8, 116u8, 101u8, 110u8, 116u8, 45u8, 116u8, 121u8, 112u8, 101u8]
}

/// "Accept-Ranges"
pub open spec fn accept_ranges_name() -> Seq<u8> {
    seq![65u8, 99u8, 99u8, 101u8, 112u8, 116u8, 45u8, 82u8, 97u8, 110u8, 103u8, 101u8, 115u8]
}

/// "bytes"
pub open spec fn bytes_value() -> Seq<u8> {
    seq![98u8, 121u8, 116u8, 101u8, 115u8]
}

/// "Content-Length"
pub open spec fn content_length_header() -> Seq<u8> {
    seq![67u8, 111u8, 110u8, 116u8, 101u8, 110u8, 116u8, 45u8, 76u8, 101u8, 110u8, 103u8, 116u8, 104u8]
}

/// "mpegurl"
pub open spec fn mpegurl_marker() -> Seq<u8> {
    seq![109u8, 112u8, 101u8, 103u8, 117u8, 114u8, 108u8]
}

/// A header survives the copy unless its name is `Transfer-Encoding` or
/// `Content-Length`, compared without regard to case.
pub open spec fn header_kept(name: Seq<u8>) -> bool {
    lower_seq(name) != transfer_encoding_name() && lower_seq(name) != content_length_name()
}

/// The upstream headers that are copied onto the outbound response, in order,
/// repeated names kept as they came.
pub open spec fn spec_filter_headers(hs: Seq<(Seq<u8>, Seq<u8>)>) -> Seq<(Seq<u8>, Seq<u8>)>
    decreases hs.len(),
{
    if hs.len() == 0 {
        Seq::empty()
    } else if header_kept(hs[0].0) {
        seq![hs[0]] + spec_filter_headers(hs.skip(1))
    } else {
        spec_filter_headers(hs.skip(1))
    }
}

/// The whole outbound header list: `Accept-Ranges: bytes` first, then the
/// filtered copy of the upstream headers.
pub open spec fn spec_outbound_headers(hs: Seq<(Seq<u8>, Seq<u8>)>) -> Seq<(Seq<u8>, Seq<u8>)> {
    seq![(accept_ranges_name(), bytes_value())] + spec_filter_headers(hs)
}

/// No outbound header carries the upstream's framing: every name differs from
/// `Transfer-Encoding` and `Content-Length` in any case, and the forced
/// `Accept-Ranges: bytes` stands first whatever the upstream declared.
pub proof fn lemma_outbound_header_hygiene(hs: Seq<(Seq<u8>, Seq<u8>)>)
    ensures
        spec_outbound_headers(hs).len() >= 1,
        spec_outbound_headers(hs)[0] == (accept_ranges_name(), bytes_value()),
        forall|j: int|
            0 <= j < spec_outbound_headers(hs).len() ==> lower_seq(
                #[trigger] spec_outbound_headers(hs)[j].0,
            ) != transfer_encoding_name() && lower_seq(spec_outbound_headers(hs)[j].0)
                != content_length_name(),
{
    lemma_filter_headers_kept(hs);
    assert(lower_seq(accept_ranges_name()).len() == 13);
    assert forall|j: int| 0 <= j < spec_outbound_headers(hs).len() implies lower_seq(
        #[trigger] spec_outbound_headers(hs)[j].0,
    ) != transfer_encoding_name() && lower_seq(spec_outbound_headers(hs)[j].0)
        != content_length_name() by {
        if j >= 1 {
            assert(spec_outbound_headers(hs)[j] == spec_filter_headers(hs)[j - 1]);
        }
    }
}

/// Every header that the filter lets through is one it may keep.
pub proof fn lemma_filter_headers_kept(hs: Seq<(Seq<u8>, Seq<u8>)>)
    ensures
        forall|j: int|
            0 <= j < spec_filter_headers(hs).len() ==> header_kept(
                #[trigger] spec_filter_headers(hs)[j].0,
            ),
    decreases hs.len(),
{
    if hs.len() == 0 {
    } else {
        lemma_filter_headers_kept(hs.skip(1));
        assert forall|j: int| 0 <= j < spec_filter_headers(hs).len() implies header_kept(
            #[trigger] spec_filter_headers(hs)[j].0,
        ) by {
            if header_kept(hs[0].0) {
                if j >= 1 {
                    assert(spec_filter_headers(hs)[j] == spec_filter_headers(hs.skip(1))[j - 1]);
                }
            } else {
                assert(spec_filter_headers(hs)[j] == spec_filter_headers(hs.skip(1))[j]);
            }
        }
    }
}

/// Copies the upstream headers onto an outbound list, `Accept-Ranges: bytes`
/// first, the upstream framing headers dropped.
pub fn filter_headers(upstream: &Vec<(Vec<u8>, Vec<u8>)>) -> (r: Vec<(Vec<u8>, Vec<u8>)>)
    ensures
        views_of(r@) == spec_outbound_headers(views_of(upstream@)),
{
    let mut out: Vec<(Vec<u8>, Vec<u8>)> = Vec::new();
    let ar_n: Vec<u8> = vec![
        65u8, 99u8, 99u8, 101u8, 112u8, 116u8, 45u8, 82u8, 97u8, 110u8, 103u8, 101u8, 115u8,
    ];
    let ar_v: Vec<u8> = vec![98u8, 121u8, 116u8, 101u8, 115u8];
    out.push((ar_n, ar_v));
    let te: Vec<u8> = vec![
        116u8, 114u8, 97u8, 110u8, 115u8, 102u8, 101u8, 114u8, 45u8, 101u8, 110u8, 99u8, 111u8,
        100u8, 105u8, 110u8, 103u8,
    ];
    let cl: Vec<u8> = vec![
        99u8, 111u8, 110u8, 116u8, 101u8, 110u8, 116u8, 45u8, 108u8, 101u8, 110u8, 103u8, 116u8,
        104u8,
    ];
    let ghost all = views_of(upstream@);
    let mut i: usize = 0;
    proof {
        assert(lower_seq(te@) =~= transfer_encoding_name());
        assert(lower_seq(cl@) =~= content_length_name());
        assert(all.skip(0) =~= all);
        assert(views_of(out@).skip(1) =~= Seq::<(Seq<u8>, Seq<u8>)>::empty());
    }
    while i < upstream.len()
        invariant
            i <= upstream.len(),
            all == views_of(upstream@),
            lower_seq(te@) == transfer_encoding_name(),
            lower_seq(cl@) == content_length_name(),
            views_of(out@).len() >= 1,
            views_of(out@)[0] == (accept_ranges_name(), bytes_value()),
            spec_filter_headers(all) == views_of(out@).skip(1) + spec_filter_headers(
                all.skip(i as int),
            ),
        decreases upstream.len() - i,
    {
        let name = &upstream[i].0;
        let keep = !eq_ignore_case(name.as_slice(), te.as_slice()) && !eq_ignore_case(
            name.as_slice(),
            cl.as_slice(),
        );
        proof {
            assert(all.skip(i as int)[0] == all[i as int]);
            assert(all[i as int].0 == upstream@[i as int].0@);
            assert(all.skip(i as int).skip(1) =~= all.skip(i as int + 1));
            assert(keep == header_kept(all.skip(i as int)[0].0));
        }
        if keep {
            let n2 = copy_bytes(upstream[i].0.as_slice());
            let v2 = copy_bytes(upstream[i].1.as_slice());
            let ghost prev = views_of(out@);
            out.push((n2, v2));
            proof {
                assert(views_of(out@) =~~= prev + seq![all[i as int]]);
                assert(views_of(out@).skip(1) =~~= prev.skip(1) + seq![all[i as int]]);
                assert(views_of(out@).skip(1) + spec_filter_headers(all.skip(i as int + 1)) =~~=
                    prev.skip(1) + spec_filter_headers(all.skip(i as int)));
            }
        }
        i += 1;
    }
    proof {
        assert(all.skip(upstream@.len() as int).len() == 0);
        assert(spec_filter_headers(all.skip(upstream@.len() as int)) =~~= Seq::<
            (Seq<u8>, Seq<u8>),
        >::empty());
        assert(views_of(out@).skip(1) + Seq::<(Seq<u8>, Seq<u8>)>::empty() =~~= views_of(
            out@,
        ).skip(1));
        assert(views_of(out@) =~~= spec_outbound_headers(all));
    }
    out
}

/// Whether a `Content-Type` value marks an HLS playlist: it contains
/// `mpegurl`, compared without regard to case.
pub open spec fn is_playlist_value(v: Seq<u8>) -> bool {
    exists|i: int|
        0 <= i && i + 7 <= v.len() && lower_seq(#[trigger] v.subrange(i, i + 7))
            == mpegurl_marker()
}

/// The value of the first header of a given (lower-case) name.
pub open spec fn first_header(hs: Seq<(Seq<u8>, Seq<u8>)>, name: Seq<u8>) -> Option<Seq<u8>>
    decreases hs.len(),
{
    if hs.len() == 0 {
        Option::None
    } else if lower_seq(hs[0].0) == name {
        Option::Some(hs[0].1)
    } else {
        first_header(hs.skip(1), name)
    }
}

/// Whether the upstream response is an HLS playlist: its first
/// `Content-Type` value contains `mpegurl` in any case.
pub open spec fn spec_is_playlist(hs: Seq<(Seq<u8>, Seq<u8>)>) -> bool {
    match first_header(hs, content_type_name()) {
        Option::Some(v) => is_playlist_value(v),
        Option::None => false,
    }
}

fn contains_mpegurl(v: &[u8]) -> (r: bool)
    ensures
        r == is_playlist_value(v@),
{
    let marker: Vec<u8> = vec![109u8, 112u8, 101u8, 103u8, 117u8, 114u8, 108u8];
    proof {
        assert(lower_seq(marker@) =~= mpegurl_marker());
    }
    if v.len() < 7 {
        proof {
            assert(!is_playlist_value(v@));
        }
        return false;
    }
    let mut i: usize = 0;
    while i <= v.len() - 7
        invariant
            v@.len() >= 7,
            i <= v.len(),
            marker@ == mpegurl_marker(),
            lower_seq(marker@) == mpegurl_marker(),
            forall|k: int|
                0 <= k < i ==> lower_seq(#[trigger] v@.subrange(k, k + 7)) != mpegurl_marker(),
        decreases v.len() - i,
    {
        let window = slice_subrange(v, i, i + 7);
        if eq_ignore_case(window, marker.as_slice()) {
            proof {
                assert(lower_seq(v@.subrange(i as int, i as int + 7)) == mpegurl_marker());
            }
            return true;
        }
        proof {
            assert(lower_seq(v@.subrange(i as int, i as int + 7)) != mpegurl_marker());
        }
        i += 1;
    }
    proof {
        assert forall|k: int| 0 <= k && k + 7 <= v@.len() implies lower_seq(
            #[trigger] v@.subrange(k, k + 7),
        ) != mpegurl_marker() by {
            assert(k < i);
        }
    }
    false
}

/// Decides the manifest path: looks up the first `Content-Type` header and
/// tests it for the playlist marker.
pub fn classify_response(headers: &Vec<(Vec<u8>, Vec<u8>)>) -> (r: bool)
    ensures
        r == spec_is_playlist(views_of(headers@)),
{
    let ct: Vec<u8> = vec![
        99u8, 111u8, 110u8, 116u8, 101u8, 110u8, 116u8, 45u8, 116u8, 121u8, 112u8, 101u8,
    ];
    let ghost all = views_of(headers@);
    proof {
        assert(lower_seq(ct@) =~= content_type_name());
        assert(all.skip(0) =~= all);
    }
    let mut i: usize = 0;
    while i < headers.len()
        invariant
            i <= headers.len(),
            all == views_of(headers@),
            lower_seq(ct@) == content_type_name(),
            first_header(all, content_type_name()) == first_header(
                all.skip(i as int),
                content_type_name(),
            ),
        decreases headers.len() - i,
    {
        proof {
            assert(all.skip(i as int)[0] == all[i as int]);
            assert(all.skip(i as int).skip(1) =~= all.skip(i as int + 1));
        }
        if eq_ignore_case(headers[i].0.as_slice(), ct.as_slice()) {
            return contains_mpegurl(headers[i].1.as_slice());
        }
        i += 1;
    }
    proof {
        assert(all.skip(headers@.len() as int).len() == 0);
    }
    false
}

/// Appends the recomputed `Content-Length` for a fully materialized manifest
/// body: the manifest path is the one that states its own framing.
pub fn with_content_length(headers: Vec<(Vec<u8>, Vec<u8>)>, body_len: usize) -> (r: Vec<
    (Vec<u8>, Vec<u8>),
>)
    ensures
        views_of(r@) == views_of(headers@) + seq![
            (content_length_header(), spec_dec(body_len as int)),
        ],
{
    let mut out = headers;
    let cl_n: Vec<u8> = vec![
        67u8, 111u8, 110u8, 116u8, 101u8, 110u8, 116u8, 45u8, 76u8, 101u8, 110u8, 103u8, 116u8,
        104u8,
    ];
    let mut cl_v: Vec<u8> = Vec::new();
    push_dec(&mut cl_v, body_len);
    proof {
        assert(cl_v@ =~= spec_dec(body_len as int));
    }
    let ghost prev = views_of(out@);
    out.push((cl_n, cl_v));
    proof {
        assert(views_of(out@) =~~= prev + seq![(content_length_header(), spec_dec(
            body_len as int,
        ))]);
    }
    out
}

} // verus!
