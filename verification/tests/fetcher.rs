//! The paginated fetch engine: de-duplication, banner mapping, failure
//! classification, page-loop scenarios, request construction and merging.

use wish_core::error::ErrorKind;
use wish_core::error::WishError;
use wish_core::wish_fetcher::banner_codes;
use wish_core::wish_fetcher::extract_auth_params;
use wish_core::wish_fetcher::get_api_endpoint;
use wish_core::wish_fetcher::make_wish_item;
use wish_core::wish_fetcher::map_gacha_type;
use wish_core::wish_fetcher::merge_results;
use wish_core::wish_fetcher::normalize_item_type;
use wish_core::wish_fetcher::parse_rarity;
use wish_core::wish_fetcher::ApiResponse;
use wish_core::wish_fetcher::BannerFetch;
use wish_core::wish_fetcher::PageStep;
use wish_core::wish_fetcher::RawWishItem;

fn raw(id: &str, gacha_type: &str) -> RawWishItem {
    RawWishItem {
        id: id.to_string(),
        name: format!("item-{id}"),
        rank_type: "4".to_string(),
        item_type: "Weapon".to_string(),
        time: "2024-01-01 00:00:00".to_string(),
        gacha_type: gacha_type.to_string(),
    }
}

fn page(items: Vec<RawWishItem>) -> ApiResponse {
    ApiResponse { retcode: 0, message: None, data: Some(items) }
}

#[test]
fn banner_table_is_fixed() {
    assert_eq!(map_gacha_type("301"), "character");
    assert_eq!(map_gacha_type("400"), "character");
    assert_eq!(map_gacha_type("302"), "weapon");
    assert_eq!(map_gacha_type("200"), "standard");
    assert_eq!(map_gacha_type("500"), "chronicled");
    assert_eq!(map_gacha_type("999"), "unknown");
    assert_eq!(map_gacha_type(""), "unknown");
}

#[test]
fn banner_depends_on_item_code_not_on_stream() {
    // A code-400 record fetched by the 400 stream is still "character":
    // the banner comes from the record's own code, not the request.
    let mut f = BannerFetch::new("400".to_string());
    let step = f.process_page(&page(vec![raw("1", "400")]));
    assert_eq!(step, PageStep::Finished);
    assert_eq!(f.items[0].banner, "character");
}

#[test]
fn rarity_parsing_with_fallback() {
    assert_eq!(parse_rarity("3"), 3);
    assert_eq!(parse_rarity("5"), 5);
    assert_eq!(parse_rarity("05"), 5);
    assert_eq!(parse_rarity("255"), 255);
    assert_eq!(parse_rarity("256"), 3);
    assert_eq!(parse_rarity("99999999999999999999"), 3);
    assert_eq!(parse_rarity(""), 3);
    assert_eq!(parse_rarity("x5"), 3);
    assert_eq!(parse_rarity("5x"), 3);
}

#[test]
fn item_type_collapses_to_two_values() {
    assert_eq!(normalize_item_type("Character"), "character");
    assert_eq!(normalize_item_type("CHARACTER"), "character");
    assert_eq!(normalize_item_type("character"), "character");
    assert_eq!(normalize_item_type("Weapon"), "weapon");
    assert_eq!(normalize_item_type("anything else"), "weapon");
}

#[test]
fn make_wish_item_transforms_fields() {
    let r = RawWishItem {
        id: "100001".to_string(),
        name: "Some Sword".to_string(),
        rank_type: "four".to_string(),
        item_type: "Weapon".to_string(),
        time: "2024-05-06 07:08:09".to_string(),
        gacha_type: "302".to_string(),
    };
    let w = make_wish_item(&r);
    assert_eq!(w.id, "100001");
    assert_eq!(w.name, "Some Sword");
    assert_eq!(w.rarity, 3); // unparseable rank falls back
    assert_eq!(w.item_type, "weapon");
    assert_eq!(w.time, "2024-05-06 07:08:09");
    assert_eq!(w.banner, "weapon");
}

#[test]
fn auth_expired_is_distinguished() {
    let mut f = BannerFetch::new("301".to_string());
    let step = f.process_page(&ApiResponse { retcode: -101, message: None, data: None });
    match step {
        PageStep::Failed(e) => assert_eq!(e.kind(), ErrorKind::AuthExpired),
        other => panic!("expected a failure, got {other:?}"),
    }
    assert!(f.items.is_empty());
}

#[test]
fn other_retcodes_are_api_errors() {
    let mut f = BannerFetch::new("301".to_string());
    let step = f.process_page(&ApiResponse {
        retcode: -110,
        message: Some("visit too frequently".to_string()),
        data: None,
    });
    match step {
        PageStep::Failed(e) => {
            assert_eq!(e.kind(), ErrorKind::ApiError);
            assert_eq!(e.message(), "visit too frequently");
        },
        other => panic!("expected a failure, got {other:?}"),
    }
}

#[test]
fn missing_data_is_decode_error() {
    let mut f = BannerFetch::new("301".to_string());
    let step = f.process_page(&ApiResponse { retcode: 0, message: None, data: None });
    match step {
        PageStep::Failed(e) => assert_eq!(e.kind(), ErrorKind::DecodeError),
        other => panic!("expected a failure, got {other:?}"),
    }
}

#[test]
fn empty_page_finishes_stream() {
    let mut f = BannerFetch::new("301".to_string());
    let step = f.process_page(&page(vec![]));
    assert_eq!(step, PageStep::Finished);
    assert!(f.items.is_empty());
    assert_eq!(f.page, 1);
    assert_eq!(f.end_id, "0");
}

#[test]
fn single_short_page_is_one_request_without_delay() {
    // Exactly one page of 5 matching, unseen records: the loop finishes
    // after this single request and never asks for a pause.
    let mut f = BannerFetch::new("301".to_string());
    let items: Vec<RawWishItem> = (1..=5).map(|i| raw(&i.to_string(), "301")).collect();
    let step = f.process_page(&page(items));
    assert_eq!(step, PageStep::Finished);
    assert_eq!(f.items.len(), 5);
    assert_eq!(f.page, 1);
    assert_eq!(f.end_id, "5");
}

#[test]
fn full_page_then_short_page_pauses_once() {
    // A full page of 20, then a page of 3: two requests, one 500 ms pause
    // between them, 23 records in the result.
    let mut f = BannerFetch::new("301".to_string());
    let first: Vec<RawWishItem> = (1..=20).map(|i| raw(&i.to_string(), "301")).collect();
    let step1 = f.process_page(&page(first));
    assert_eq!(step1, PageStep::NextPage { delay_ms: 500 });
    assert_eq!(f.page, 2);
    assert_eq!(f.end_id, "20");
    let second: Vec<RawWishItem> = (21..=23).map(|i| raw(&i.to_string(), "301")).collect();
    let step2 = f.process_page(&page(second));
    assert_eq!(step2, PageStep::Finished);
    assert_eq!(f.items.len(), 23);
    assert_eq!(f.end_id, "23");
}

#[test]
fn duplicate_ids_are_never_taken_twice() {
    let mut f = BannerFetch::new("301".to_string());
    let first: Vec<RawWishItem> = (1..=20).map(|i| raw(&i.to_string(), "301")).collect();
    f.process_page(&page(first));
    // A stale page: 18 already-seen ids, one intra-page duplicate, two new.
    let mut second: Vec<RawWishItem> = (3..=20).map(|i| raw(&i.to_string(), "301")).collect();
    second.push(raw("21", "301"));
    second.push(raw("21", "301"));
    second.push(raw("22", "301"));
    let step = f.process_page(&page(second));
    assert_eq!(step, PageStep::Finished);
    assert_eq!(f.items.len(), 22);
    let mut ids: Vec<String> = f.items.iter().map(|w| w.id.clone()).collect();
    ids.sort();
    ids.dedup();
    assert_eq!(ids.len(), 22);
    assert_eq!(f.end_id, "22");
}

#[test]
fn fully_filtered_page_finishes_stream() {
    let mut f = BannerFetch::new("301".to_string());
    f.process_page(&page(vec![raw("1", "301")]));
    // Only already-seen or other-code records: nothing survives.
    let step = f.process_page(&page(vec![raw("1", "301"), raw("2", "400")]));
    assert_eq!(step, PageStep::Finished);
    assert_eq!(f.items.len(), 1);
    assert_eq!(f.end_id, "1");
}

#[test]
fn mismatched_codes_are_filtered_out() {
    let mut f = BannerFetch::new("301".to_string());
    let step = f.process_page(&page(vec![raw("1", "301"), raw("2", "400"), raw("3", "301")]));
    assert_eq!(step, PageStep::Finished);
    let ids: Vec<&str> = f.items.iter().map(|w| w.id.as_str()).collect();
    assert_eq!(ids, vec!["1", "3"]);
}

#[test]
fn weapon_category_fetches_code_302_only() {
    let codes = banner_codes(&vec!["weapon".to_string()]);
    assert_eq!(codes, vec!["302".to_string()]);
}

#[test]
fn banner_codes_follow_table_order() {
    let codes = banner_codes(&vec![
        "chronicled".to_string(),
        "character".to_string(),
        "weapon".to_string(),
    ]);
    assert_eq!(
        codes,
        vec!["301".to_string(), "400".to_string(), "302".to_string(), "500".to_string()]
    );
    assert!(banner_codes(&vec!["unknown".to_string()]).is_empty());
    assert!(banner_codes(&vec![]).is_empty());
}

#[test]
fn request_params_carry_auth_then_request_fields() {
    let f = BannerFetch::new("301".to_string());
    let auth = vec![("authkey".to_string(), "k1".to_string())];
    let params = f.request_params(&auth);
    assert_eq!(
        params,
        vec![
            ("authkey".to_string(), "k1".to_string()),
            ("gacha_type".to_string(), "301".to_string()),
            ("page".to_string(), "1".to_string()),
            ("size".to_string(), "20".to_string()),
        ]
    );
}

#[test]
fn request_params_carry_cursor_after_first_page() {
    let mut f = BannerFetch::new("301".to_string());
    let first: Vec<RawWishItem> = (1..=20).map(|i| raw(&i.to_string(), "301")).collect();
    f.process_page(&page(first));
    let params = f.request_params(&vec![]);
    assert_eq!(
        params,
        vec![
            ("gacha_type".to_string(), "301".to_string()),
            ("page".to_string(), "2".to_string()),
            ("size".to_string(), "20".to_string()),
            ("end_id".to_string(), "20".to_string()),
        ]
    );
}

#[test]
fn page_request_url_builds_full_url() {
    let f = BannerFetch::new("301".to_string());
    let auth = vec![("authkey".to_string(), "abc".to_string())];
    let url = f
        .page_request_url(
            "https://public-operation-hk4e-sg.hoyoverse.com/gacha_info/api/getGachaLog",
            &auth,
        )
        .unwrap();
    assert_eq!(
        url,
        "https://public-operation-hk4e-sg.hoyoverse.com/gacha_info/api/getGachaLog?authkey=abc&gacha_type=301&page=1&size=20"
    );
}

#[test]
fn page_request_url_rejects_bad_endpoint() {
    let f = BannerFetch::new("301".to_string());
    let r = f.page_request_url("not a url", &vec![]);
    assert_eq!(r.unwrap_err().kind(), ErrorKind::InvalidUrl);
}

#[test]
fn endpoint_from_global_host() {
    let url = "https://gs.hoyoverse.com/genshin/event/e20190909gacha-v3/log?authkey=a";
    assert_eq!(
        get_api_endpoint(url).unwrap(),
        "https://public-operation-hk4e-sg.hoyoverse.com/gacha_info/api/getGachaLog"
    );
    // Hosts are normalized by URL parsing, so case does not matter.
    let upper = "https://GS.HOYOVERSE.COM/genshin/log?authkey=a";
    assert_eq!(
        get_api_endpoint(upper).unwrap(),
        "https://public-operation-hk4e-sg.hoyoverse.com/gacha_info/api/getGachaLog"
    );
}

#[test]
fn endpoint_from_domestic_host() {
    let url = "https://webstatic.mihoyo.com/hk4e/event/x/log?authkey=a";
    assert_eq!(
        get_api_endpoint(url).unwrap(),
        "https://public-operation-hk4e.mihoyo.com/gacha_info/api/getGachaLog"
    );
}

#[test]
fn endpoint_rejects_unknown_or_missing_host() {
    assert_eq!(
        get_api_endpoint("https://example.com/x").unwrap_err().kind(),
        ErrorKind::InvalidUrl
    );
    assert_eq!(get_api_endpoint("not a url").unwrap_err().kind(), ErrorKind::InvalidUrl);
}

#[test]
fn auth_params_are_allow_listed_and_decoded() {
    let url = "https://gs.hoyoverse.com/genshin/event/x/log?win_mode=fullscreen&authkey=ab%2Fcd%3D&lang=en&gacha_id=77&region=os_euro&game_biz=hk4e_global";
    let params = extract_auth_params(url).unwrap();
    assert_eq!(
        params,
        vec![
            ("authkey".to_string(), "ab/cd=".to_string()),
            ("lang".to_string(), "en".to_string()),
            ("region".to_string(), "os_euro".to_string()),
            ("game_biz".to_string(), "hk4e_global".to_string()),
        ]
    );
}

#[test]
fn auth_params_synthesize_game_biz_from_host() {
    let global = "https://gs.hoyoverse.com/x?authkey=a";
    let params = extract_auth_params(global).unwrap();
    assert_eq!(params.last().unwrap(), &("game_biz".to_string(), "hk4e_global".to_string()));

    let domestic = "https://webstatic.mihoyo.com/x?authkey=a";
    let params = extract_auth_params(domestic).unwrap();
    assert_eq!(params.last().unwrap(), &("game_biz".to_string(), "hk4e_cn".to_string()));
}

#[test]
fn auth_params_require_authkey() {
    let r = extract_auth_params("https://gs.hoyoverse.com/x?lang=en");
    assert_eq!(r.unwrap_err().kind(), ErrorKind::InvalidUrl);
}

#[test]
fn merge_preserves_category_and_page_order() {
    let mut f1 = BannerFetch::new("301".to_string());
    f1.process_page(&page(vec![raw("10", "301"), raw("11", "301")]));
    let mut f2 = BannerFetch::new("302".to_string());
    f2.process_page(&page(vec![raw("20", "302")]));
    let merged = merge_results(vec![f1.items, f2.items]);
    let ids: Vec<&str> = merged.iter().map(|w| w.id.as_str()).collect();
    assert_eq!(ids, vec!["10", "11", "20"]);
}

#[test]
fn merge_of_nothing_is_empty() {
    assert!(merge_results(vec![]).is_empty());
    assert!(merge_results(vec![vec![], vec![]]).is_empty());
}

#[test]
fn error_messages_name_their_cause() {
    assert_eq!(
        WishError::AuthExpired.message(),
        "Authkey has expired. Please run the script again to get a new URL."
    );
    assert_eq!(
        WishError::ApiError { retcode: -110, message: None }.message(),
        "API error: -110"
    );
    assert_eq!(
        WishError::TransportError { message: "connection reset".to_string() }.message(),
        "Request failed: connection reset"
    );
    assert_eq!(WishError::InvalidUrl.message(), "Invalid URL");
}
