use base64::engine::general_purpose::URL_SAFE_NO_PAD;
use base64::Engine;
use hls_proxy::codec::{decode, encode};
use hls_proxy::errors::{error_response, ProxyError};
use hls_proxy::headers::{classify_response, filter_headers, with_content_length};
use hls_proxy::request::{build_upstream_request, resolve_target, ResolvedTarget};
use hls_proxy::rewrite::rewrite_manifest;

fn enc(s: &[u8]) -> Vec<u8> {
    encode(s)
}

fn hdr(n: &[u8], v: &[u8]) -> (Vec<u8>, Vec<u8>) {
    (n.to_vec(), v.to_vec())
}

#[test]
fn codec_round_trip_small() {
    let cases: Vec<Vec<u8>> = vec![
        b"".to_vec(),
        b"f".to_vec(),
        b"fo".to_vec(),
        b"foo".to_vec(),
        b"foob".to_vec(),
        b"fooba".to_vec(),
        b"foobar".to_vec(),
        b"https://example.com/a?b=c&d=e".to_vec(),
        vec![0u8, 255u8, 254u8, 1u8, 2u8, 128u8],
    ];
    for c in cases {
        let e = encode(c.as_slice());
        assert_eq!(decode(e.as_slice()), Some(c));
    }
}

#[test]
fn codec_round_trip_all_bytes() {
    let mut all: Vec<u8> = Vec::new();
    for b in 0..=255u8 {
        all.push(b);
    }
    let e = encode(all.as_slice());
    assert_eq!(decode(e.as_slice()), Some(all));
}

#[test]
fn codec_matches_reference_encoder() {
    let cases: Vec<Vec<u8>> = vec![
        b"".to_vec(),
        b"f".to_vec(),
        b"fo".to_vec(),
        b"foo".to_vec(),
        b"https://host/path/segment1.ts".to_vec(),
        vec![251u8, 239u8, 190u8, 0u8, 16u8],
    ];
    for c in cases {
        let ours = encode(c.as_slice());
        let theirs = URL_SAFE_NO_PAD.encode(c.as_slice());
        assert_eq!(ours, theirs.as_bytes().to_vec());
        let back = URL_SAFE_NO_PAD.decode(ours.as_slice()).unwrap();
        assert_eq!(back, c);
    }
}

#[test]
fn codec_rejects_what_reference_rejects() {
    // one leftover byte, a padding character, a byte outside the alphabet,
    // and nonzero trailing bits
    for bad in [&b"a"[..], &b"ab=="[..], &b"a!bc"[..], &b"ab"[..]] {
        assert_eq!(decode(bad), None, "{:?}", bad);
        assert!(URL_SAFE_NO_PAD.decode(bad).is_err(), "{:?}", bad);
    }
    // a canonical two-character group decodes on both sides
    let ok = b"aQ";
    assert_eq!(decode(ok), Some(URL_SAFE_NO_PAD.decode(ok).unwrap()));
}

#[test]
fn codec_matches_reference_on_all_byte_values() {
    let mut all: Vec<u8> = Vec::new();
    for b in 0..=255u8 {
        all.push(b);
    }
    let ours = encode(all.as_slice());
    assert_eq!(ours, URL_SAFE_NO_PAD.encode(all.as_slice()).as_bytes().to_vec());
}

#[test]
fn classify_uses_first_content_type() {
    let hs = vec![
        hdr(b"Content-Type", b"video/mp4"),
        hdr(b"Content-Type", b"application/vnd.apple.mpegurl"),
    ];
    assert!(!classify_response(&hs));
}

#[test]
fn rewrite_master_playlist_lines() {
    let body = b"#EXTM3U\n#EXT-X-STREAM-INF:BANDWIDTH=800000\nlow/index.m3u8?token=1\n#EXT-X-STREAM-INF:BANDWIDTH=2000000\nhttps://cdn.example/high/index.m3u8\n";
    let out = rewrite_manifest(
        body,
        b"https://host/live/master.m3u8",
        b"ck",
        b"http://127.0.0.1:7878",
    )
    .unwrap();
    let expected = format!(
        "#EXTM3U\n#EXT-X-STREAM-INF:BANDWIDTH=800000\nhttp://127.0.0.1:7878/proxy?url={}&cookie=ck\n#EXT-X-STREAM-INF:BANDWIDTH=2000000\nhttp://127.0.0.1:7878/proxy?url={}&cookie=ck\n",
        URL_SAFE_NO_PAD.encode("https://host/live/low/index.m3u8?token=1"),
        URL_SAFE_NO_PAD.encode("https://cdn.example/high/index.m3u8"),
    );
    assert_eq!(String::from_utf8(out).unwrap(), expected);
}

#[test]
fn missing_url_parameter_is_400() {
    let r = resolve_target(None, None);
    let e = match r {
        Err(e) => e,
        Ok(_) => panic!("missing url accepted"),
    };
    assert_eq!(e, ProxyError::MissingTarget);
    let (status, body) = error_response(e, b"");
    assert_eq!(status, 400);
    assert_eq!(body, b"Missing url parameter".to_vec());
}

#[test]
fn invalid_base64_url_is_400() {
    let r = resolve_target(Some(b"!!!not-base64!!!".to_vec()), None);
    let e = match r {
        Err(e) => e,
        Ok(_) => panic!("bad base64 accepted"),
    };
    assert_eq!(e, ProxyError::InvalidTarget);
    let (status, body) = error_response(e, b"");
    assert_eq!(status, 400);
    assert_eq!(body, b"Invalid Base64 URL".to_vec());
}

#[test]
fn invalid_utf8_url_is_400() {
    // valid base64 whose payload is not UTF-8
    let payload = vec![255u8, 254u8, 0u8];
    let r = resolve_target(Some(enc(payload.as_slice())), None);
    assert_eq!(
        match r {
            Err(e) => e,
            Ok(_) => panic!("non-UTF-8 target accepted"),
        },
        ProxyError::InvalidTarget
    );
}

#[test]
fn target_and_cookie_decode() {
    let url = b"https://example.com/v.m3u8";
    let cookie = b"session=abc; other=1";
    let t = resolve_target(Some(enc(url)), Some(enc(cookie))).unwrap();
    assert_eq!(t.url, url.to_vec());
    assert_eq!(t.cookie, cookie.to_vec());
    assert_eq!(t.encoded_cookie, enc(cookie));
}

#[test]
fn bad_cookie_is_empty_not_fatal() {
    let url = b"https://example.com/v.m3u8";
    let t = resolve_target(Some(enc(url)), Some(b"%%%".to_vec())).unwrap();
    assert_eq!(t.url, url.to_vec());
    assert_eq!(t.cookie, Vec::<u8>::new());
    assert_eq!(t.encoded_cookie, b"%%%".to_vec());
    // valid base64 but not UTF-8: also an empty cookie
    let t2 = resolve_target(Some(enc(url)), Some(enc(&[255u8, 0u8]))).unwrap();
    assert_eq!(t2.cookie, Vec::<u8>::new());
}

const UA: &[u8] = b"Mozilla/5.0 (Windows NT 10.0; Win64; x64) AppleWebKit/537.36 (KHTML, like Gecko) quark-cloud-drive/2.5.20 Chrome/100.0.4896.160 Electron/18.3.5.4-b478491100 Safari/537.36 Channel/pckk_other_ch";

#[test]
fn upstream_request_fixed_identity() {
    let t = ResolvedTarget {
        url: b"https://example.com/a".to_vec(),
        cookie: Vec::new(),
        encoded_cookie: Vec::new(),
    };
    let r = build_upstream_request(&t, None);
    assert_eq!(r.url, b"https://example.com/a".to_vec());
    assert_eq!(
        r.headers,
        vec![
            hdr(b"User-Agent", UA),
            hdr(b"Referer", b"https://pan.quark.cn/"),
            hdr(b"Origin", b"https://pan.quark.cn/"),
        ]
    );
}

#[test]
fn upstream_request_forwards_range_verbatim() {
    let t = ResolvedTarget {
        url: b"https://example.com/seg.ts".to_vec(),
        cookie: b"k=v".to_vec(),
        encoded_cookie: enc(b"k=v"),
    };
    let r = build_upstream_request(&t, Some(b"bytes=1000-".to_vec()));
    assert_eq!(
        r.headers,
        vec![
            hdr(b"User-Agent", UA),
            hdr(b"Referer", b"https://pan.quark.cn/"),
            hdr(b"Origin", b"https://pan.quark.cn/"),
            hdr(b"Cookie", b"k=v"),
            hdr(b"Range", b"bytes=1000-"),
        ]
    );
}

#[test]
fn classify_finds_playlist_any_case() {
    let hs = vec![hdr(b"Content-Type", b"application/vnd.apple.MPEGURL")];
    assert!(classify_response(&hs));
    let hs2 = vec![hdr(b"content-type", b"audio/x-mpegurl; charset=utf-8")];
    assert!(classify_response(&hs2));
}

#[test]
fn classify_rejects_non_playlist() {
    assert!(!classify_response(&vec![hdr(b"Content-Type", b"video/mp4")]));
    assert!(!classify_response(&vec![hdr(b"Server", b"nginx")]));
    assert!(!classify_response(&Vec::new()));
}

#[test]
fn filter_strips_framing_and_forces_accept_ranges() {
    let upstream = vec![
        hdr(b"Content-Type", b"video/mp4"),
        hdr(b"Transfer-Encoding", b"chunked"),
        hdr(b"CONTENT-LENGTH", b"999"),
        hdr(b"Set-Cookie", b"a=1"),
        hdr(b"Set-Cookie", b"b=2"),
        hdr(b"Accept-Ranges", b"none"),
    ];
    let out = filter_headers(&upstream);
    assert_eq!(out[0], hdr(b"Accept-Ranges", b"bytes"));
    assert_eq!(
        out[1..].to_vec(),
        vec![
            hdr(b"Content-Type", b"video/mp4"),
            hdr(b"Set-Cookie", b"a=1"),
            hdr(b"Set-Cookie", b"b=2"),
            hdr(b"Accept-Ranges", b"none"),
        ]
    );
    for (n, _) in out.iter() {
        let lower: Vec<u8> = n.iter().map(|b| b.to_ascii_lowercase()).collect();
        assert_ne!(lower, b"transfer-encoding".to_vec());
        assert_ne!(lower, b"content-length".to_vec());
    }
}

#[test]
fn manifest_content_length_is_recomputed() {
    let out = with_content_length(vec![hdr(b"Accept-Ranges", b"bytes")], 1234);
    assert_eq!(out.last().unwrap(), &hdr(b"Content-Length", b"1234"));
    let out0 = with_content_length(Vec::new(), 0);
    assert_eq!(out0, vec![hdr(b"Content-Length", b"0")]);
}

#[test]
fn rewrite_scenario_simple_manifest() {
    let cookie_enc = enc(b"cookie");
    let body = b"#EXTM3U\n#EXT-X-VERSION:3\nsegment1.ts\n";
    let out = rewrite_manifest(
        body,
        b"https://host/path/index.m3u8",
        cookie_enc.as_slice(),
        b"http://127.0.0.1:7878",
    )
    .unwrap();
    let expected = format!(
        "#EXTM3U\n#EXT-X-VERSION:3\nhttp://127.0.0.1:7878/proxy?url={}&cookie={}\n",
        URL_SAFE_NO_PAD.encode("https://host/path/segment1.ts"),
        String::from_utf8(cookie_enc.clone()).unwrap(),
    );
    assert_eq!(String::from_utf8(out).unwrap(), expected);
}

#[test]
fn rewrite_resolves_relative_paths() {
    let out = rewrite_manifest(b"seg.ts", b"https://h/a/b.m3u8", b"", b"http://127.0.0.1:7878")
        .unwrap();
    let text = String::from_utf8(out).unwrap();
    let rest = text
        .strip_prefix("http://127.0.0.1:7878/proxy?url=")
        .unwrap();
    let url_param = rest.split('&').next().unwrap();
    let decoded = decode(url_param.as_bytes()).unwrap();
    assert_eq!(decoded, b"https://h/a/seg.ts".to_vec());
}

#[test]
fn rewrite_keeps_absolute_urls_proxied() {
    let out = rewrite_manifest(
        b"https://other.example/x.ts\n",
        b"https://h/a/b.m3u8",
        b"",
        b"http://127.0.0.1:7878",
    )
    .unwrap();
    let text = String::from_utf8(out).unwrap();
    let rest = text
        .strip_prefix("http://127.0.0.1:7878/proxy?url=")
        .unwrap();
    let url_param = rest.split('&').next().unwrap();
    assert_eq!(
        decode(url_param.as_bytes()).unwrap(),
        b"https://other.example/x.ts".to_vec()
    );
}

#[test]
fn rewrite_handles_crlf_and_blank_lines() {
    let out = rewrite_manifest(
        b"#A\r\nseg.ts\r\n\n",
        b"https://h/d/p.m3u8",
        b"ck",
        b"http://127.0.0.1:7878",
    )
    .unwrap();
    let expected = format!(
        "#A\nhttp://127.0.0.1:7878/proxy?url={}&cookie=ck\n\n",
        URL_SAFE_NO_PAD.encode("https://h/d/seg.ts"),
    );
    assert_eq!(String::from_utf8(out).unwrap(), expected);
}

#[test]
fn rewrite_empty_body() {
    let out = rewrite_manifest(b"", b"https://h/a.m3u8", b"", b"http://127.0.0.1:7878").unwrap();
    assert_eq!(out, Vec::<u8>::new());
}

#[test]
fn rewrite_fails_on_unparseable_base() {
    let r = rewrite_manifest(b"#EXTM3U\n", b"not a url", b"", b"http://127.0.0.1:7878");
    assert_eq!(r.unwrap_err(), ProxyError::RewriteFailure);
}

#[test]
fn rewrite_fails_on_unresolvable_line() {
    let r = rewrite_manifest(
        b"#EXTM3U\nhttp://[\n",
        b"https://h/a.m3u8",
        b"",
        b"http://127.0.0.1:7878",
    );
    assert_eq!(r.unwrap_err(), ProxyError::RewriteFailure);
}

#[test]
fn upstream_failure_is_500_with_description() {
    let detail = b"error sending request for url (https://unreachable.invalid/): connect error";
    let (status, body) = error_response(ProxyError::UpstreamConnectFailure, detail);
    assert_eq!(status, 500);
    assert_eq!(body, detail.to_vec());
}

#[test]
fn rewrite_failure_maps_to_generic_rejection() {
    let (status, body) = error_response(ProxyError::RewriteFailure, b"ignored");
    assert_eq!(status, 404);
    assert_eq!(body, b"Rejected".to_vec());
}
