use inspection_stats::http::{
    decode_text, fetch_start, fetch_step, http_fallback, jitter_ms, jitter_needs_rand, next_rand,
    splitmix64, user_agent, FetchAction, FetchEvent, Phase, FALLBACK_SEED,
};

#[test]
fn user_agents_rotate() {
    assert!(user_agent(0).contains("Chrome/120"));
    assert!(user_agent(3).contains("Firefox/123"));
    for n in 0..20u64 {
        assert_eq!(user_agent(n), user_agent(n + 5));
    }
    assert_ne!(user_agent(0), user_agent(1));
}

#[test]
fn splitmix_reference_values() {
    assert_eq!(splitmix64(0), 0);
    assert_eq!(splitmix64(0x9E37_79B9_7F4A_7C15), 0xE220_A839_7B1D_CDAF);
}

#[test]
fn seeding_from_the_clock() {
    assert_eq!(next_rand(0, Some(4)), splitmix64(5));
    assert_eq!(next_rand(0, None), splitmix64(FALLBACK_SEED | 1));
    assert_eq!(next_rand(7, Some(4)), splitmix64(7));
    assert_eq!(next_rand(7, None), next_rand(7, Some(123)));
}

#[test]
fn jitter_windows() {
    assert!(jitter_needs_rand(250, 700));
    assert!(!jitter_needs_rand(700, 700));
    assert_eq!(jitter_ms(250, 700, 0), 250);
    assert_eq!(jitter_ms(250, 700, 450), 700);
    assert_eq!(jitter_ms(250, 700, 451), 250);
    assert_eq!(jitter_ms(5, 3, 99), 5);
    for r in 0..2000u64 {
        let d = jitter_ms(800, 2300, r.wrapping_mul(0x9E37_79B9));
        assert!((800..=2300).contains(&d));
    }
}

#[test]
fn https_falls_back_to_http() {
    assert_eq!(http_fallback("https://amr.hunan.gov.cn/x"), "http://amr.hunan.gov.cn/x");
    assert_eq!(http_fallback("http://a.cn/x"), "http://a.cn/x");
    assert_eq!(http_fallback(&http_fallback("https://a.cn")), "http://a.cn");
}

#[test]
fn pages_decode_as_utf8_or_gb18030() {
    assert_eq!(decode_text("食品抽检".as_bytes()), "食品抽检");
    assert_eq!(decode_text(&[0xD6, 0xD0, 0xCE, 0xC4]), "中文");
    assert_eq!(decode_text(b"plain"), "plain");
}

fn send_url(a: &FetchAction) -> Option<String> {
    match a {
        FetchAction::Send(u) => Some(u.clone()),
        _ => None,
    }
}

#[test]
fn download_succeeds_on_first_try() {
    let (mut f, a) = fetch_start("https://x.cn/a.pdf");
    assert!(matches!(a, FetchAction::Sleep(250, 700)));
    let a = fetch_step(&mut f, FetchEvent::Slept);
    assert_eq!(send_url(&a).as_deref(), Some("https://x.cn/a.pdf"));
    let a = fetch_step(&mut f, FetchEvent::Status(200));
    assert!(matches!(a, FetchAction::ReadBody));
    let a = fetch_step(&mut f, FetchEvent::Body(vec![1, 2, 3]));
    match a {
        FetchAction::Finish(Ok(b)) => assert_eq!(b, vec![1, 2, 3]),
        _ => panic!("expected the body"),
    }
    assert_eq!(f.phase, Phase::Done);
}

#[test]
fn client_error_ends_the_download() {
    let (mut f, _) = fetch_start("https://x.cn/a.pdf");
    fetch_step(&mut f, FetchEvent::Slept);
    let a = fetch_step(&mut f, FetchEvent::Status(412));
    match a {
        FetchAction::Finish(Err(e)) => assert_eq!(e, "HTTP 412"),
        _ => panic!("expected an error"),
    }
}

#[test]
fn failures_try_http_then_back_off_then_give_up() {
    let (mut f, _) = fetch_start("https://x.cn/a.pdf");
    let mut sends = 0;
    let mut sleeps = Vec::new();
    let mut a = fetch_step(&mut f, FetchEvent::Slept);
    loop {
        match a {
            FetchAction::Send(u) => {
                sends += 1;
                let expect = if f.cand == 0 { "https://x.cn/a.pdf" } else { "http://x.cn/a.pdf" };
                assert_eq!(u, expect);
                a = fetch_step(&mut f, FetchEvent::Status(503));
            }
            FetchAction::Sleep(lo, hi) => {
                sleeps.push((lo, hi));
                a = fetch_step(&mut f, FetchEvent::Slept);
            }
            FetchAction::Finish(r) => {
                assert_eq!(r, Err("HTTP 503".to_string()));
                break;
            }
            FetchAction::ReadBody => panic!("no body after a server error"),
        }
    }
    assert_eq!(sends, 6);
    assert_eq!(sleeps, vec![(800, 2300), (1600, 3100)]);
}

#[test]
fn body_errors_are_retried_with_their_message() {
    let (mut f, _) = fetch_start("http://x.cn/a");
    fetch_step(&mut f, FetchEvent::Slept);
    fetch_step(&mut f, FetchEvent::Status(200));
    let a = fetch_step(&mut f, FetchEvent::BodyFailed("reset".to_string()));
    assert_eq!(send_url(&a).as_deref(), Some("http://x.cn/a"));
    assert_eq!(f.last, "reset");
    let a = fetch_step(&mut f, FetchEvent::SendFailed("timeout".to_string()));
    assert!(matches!(a, FetchAction::Sleep(800, 2300)));
    assert_eq!(f.last, "timeout");
}

#[test]
fn five_requests_use_five_agents() {
    for n in [0u64, 3, 17, u64::MAX - 4] {
        let mut seen: Vec<&str> = (0..5).map(|k| user_agent(n + k)).collect();
        seen.sort();
        seen.dedup();
        assert_eq!(seen.len(), 5);
    }
}
