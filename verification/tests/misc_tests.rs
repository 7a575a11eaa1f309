use jolajoamemo::agent::{is_done, parse_action_type, step_response, AgentAction, AgentActionType, AgentRun};
use jolajoamemo::cost::{calculate_cost, get_model_price};
use jolajoamemo::excel::{column_names, dataset_name_from_filename, gather_data_rows};
use jolajoamemo::google::{get_google_auth_url, tokens_expired, GoogleTokens};
use jolajoamemo::research::{
    clean_html, dedup_by_link, domain_of, extract_text_from_html, naver_display_counts,
    select_used_sources, SearchItem,
};
use jolajoamemo::shell_types::{assemble_table, collected_has_data, keep_list, keep_number};

#[test]
fn the_cost_formula_is_exactly_linear() {
    // 1000 input and 2000 output tokens at 0.10 / 0.40 USD per million
    // tokens cost exactly 0.0009 USD, that is 900 000 000 pico-dollars.
    assert_eq!(calculate_cost("gemini-2.0-flash", 1000, 2000), 900_000_000);
    // the premium model, exactly: 2.00 and 12.00 USD per million tokens
    assert_eq!(calculate_cost("gemini-3-pro-preview", 1_000_000, 0), 2_000_000_000_000);
    // an unknown model falls back to the default price
    assert_eq!(get_model_price("unknown"), (100_000, 400_000));
    assert_eq!(calculate_cost("unknown", 0, 0), 0);
}

#[test]
fn the_cost_matches_the_documented_float_formula() {
    let (inp, out) = (12_345i64, 67_890i64);
    let pico = calculate_cost("gemini-2.5-pro", inp, out) as f64 * 1e-12;
    let reference = inp as f64 * 1.25 / 1e6 + out as f64 * 10.0 / 1e6;
    assert!((pico - reference).abs() < 1e-12);
}

fn hit(link: &str) -> SearchItem {
    SearchItem {
        title: format!("title {}", link),
        link: link.to_string(),
        description: String::new(),
        source: "naver".to_string(),
    }
}

#[test]
fn duplicate_links_keep_their_first_hit() {
    let items = vec![hit("a"), hit("b"), hit("a"), hit("c"), hit("b")];
    let kept = dedup_by_link(items);
    let links: Vec<&str> = kept.iter().map(|i| i.link.as_str()).collect();
    assert_eq!(links, vec!["a", "b", "c"]);
}

#[test]
fn used_sources_are_the_selected_links_in_order() {
    let items = vec![hit("a"), hit("b"), hit("c")];
    let selected = vec!["c".to_string(), "a".to_string()];
    let used = select_used_sources(&items, &selected);
    let links: Vec<&str> = used.iter().map(|i| i.link.as_str()).collect();
    assert_eq!(links, vec!["a", "c"]);
}

#[test]
fn html_cleaning_strips_tags_and_decodes_entities() {
    assert_eq!(clean_html("<b>bold</b> &amp; <i>fine</i>"), "bold & fine");
    assert_eq!(clean_html("a &lt;tag&gt; &quot;q&quot; &#39;s&#39;&nbsp;end"), "a <tag> \"q\" 's' end");
    // an unclosed angle stays as written
    assert_eq!(clean_html("1 < 2"), "1 < 2");
}

#[test]
fn domains_come_from_the_third_slash_segment() {
    assert_eq!(domain_of("https://example.com/path/x"), Some("example.com".to_string()));
    assert_eq!(domain_of("https://example.com"), Some("example.com".to_string()));
    assert_eq!(domain_of("no slashes"), None);
}

#[test]
fn the_search_budget_splits_as_documented() {
    assert_eq!(naver_display_counts(15), (30, 7));
    assert_eq!(naver_display_counts(60), (100, 30));
    assert_eq!(naver_display_counts(4), (8, 5));
}

#[test]
fn action_names_parse_case_insensitively_and_default_to_done() {
    assert_eq!(parse_action_type("Navigate"), AgentActionType::Navigate);
    assert_eq!(parse_action_type("CLICK"), AgentActionType::Click);
    assert_eq!(parse_action_type("type"), AgentActionType::Type);
    assert_eq!(parse_action_type("sCrOlL"), AgentActionType::Scroll);
    assert_eq!(parse_action_type("wait"), AgentActionType::Wait);
    assert_eq!(parse_action_type("extract"), AgentActionType::Extract);
    assert_eq!(parse_action_type("done"), AgentActionType::Done);
    assert_eq!(parse_action_type("whatever"), AgentActionType::Done);
    assert!(is_done(&AgentActionType::Done));
    assert!(!is_done(&AgentActionType::Click));
}

#[test]
fn an_agent_run_numbers_steps_and_sums_usage_exactly() {
    let mut run = AgentRun::start("buy a book".to_string(), 99);
    assert_eq!(run.max_steps, 15);
    let action = AgentAction {
        action_type: AgentActionType::Click,
        selector: Some("#buy".to_string()),
        value: None,
        reason: "the buy button".to_string(),
    };
    run.record_step(action.clone(), "clicked".to_string(), 100, 50, 1_000);
    run.record_step(action, "clicked again".to_string(), 10, 5, 500);
    assert_eq!(run.steps.len(), 2);
    assert_eq!(run.steps[0].step_number, 1);
    assert_eq!(run.steps[1].step_number, 2);
    assert_eq!(run.total_input_tokens, 110);
    assert_eq!(run.total_output_tokens, 55);
    assert_eq!(run.total_cost_pico_usd, 1_500);
    let shown = step_response(&run.steps[0]);
    assert_eq!(shown.action_type, "Click");
    assert_eq!(shown.result, "clicked");
}

#[test]
fn dataset_names_drop_only_the_last_extension() {
    assert_eq!(dataset_name_from_filename("sales.xlsx"), "sales");
    assert_eq!(dataset_name_from_filename("a.b.xlsx"), "a.b");
    assert_eq!(dataset_name_from_filename("noext"), "noext");
    assert_eq!(dataset_name_from_filename(".xlsx"), ".xlsx");
}

#[test]
fn empty_header_cells_become_numbered_columns() {
    let header = vec!["when".to_string(), String::new(), "amount".to_string()];
    let cols = column_names(&header);
    assert_eq!(cols, vec!["when".to_string(), "Column2".to_string(), "amount".to_string()]);
}

#[test]
fn data_rows_skip_every_sheet_header() {
    let sheets = vec![
        vec![
            vec!["h1".to_string()],
            vec!["r1".to_string()],
            vec!["r2".to_string()],
        ],
        vec![vec!["h2".to_string()], vec!["r3".to_string()]],
        vec![],
    ];
    let rows = gather_data_rows(sheets);
    assert_eq!(rows, vec![
        vec!["r1".to_string()],
        vec!["r2".to_string()],
        vec!["r3".to_string()],
    ]);
}

#[test]
fn the_auth_url_is_the_endpoint_with_encoded_parts() {
    let url = get_google_auth_url("my client");
    let expected = format!(
        "https://accounts.google.com/o/oauth2/v2/auth?client_id={}&redirect_uri={}&response_type=code&scope={}&access_type=offline&prompt=consent",
        urlencoding::encode("my client"),
        urlencoding::encode("http://localhost:8585/callback"),
        urlencoding::encode(
            "https://www.googleapis.com/auth/presentations https://www.googleapis.com/auth/drive.file"
        ),
    );
    assert_eq!(url, expected);
}

#[test]
fn token_expiry_compares_against_the_clock() {
    let tokens = GoogleTokens {
        access_token: "t".to_string(),
        refresh_token: None,
        expires_at: 1000,
    };
    assert!(tokens_expired(&tokens, 1001));
    assert!(!tokens_expired(&tokens, 1000));
}

#[test]
fn collected_pages_keep_only_real_data() {
    let empty = jolajoamemo::shell_types::CollectedData {
        url: "u".to_string(),
        title: "t".to_string(),
        tables: vec![],
        numbers: vec![],
        lists: vec![],
        raw_text: String::new(),
    };
    assert!(!collected_has_data(&empty));
    assert!(keep_list(&vec!["a".to_string(), "b".to_string()]));
    assert!(!keep_list(&vec!["a".to_string()]));
    assert!(keep_number("price", "100"));
    assert!(!keep_number("", "100"));
    let table = assemble_table(vec![
        (vec!["h".to_string()], vec![]),
        (vec![], vec!["d1".to_string()]),
        (vec![], vec!["d2".to_string()]),
    ])
    .unwrap();
    assert_eq!(table.headers, vec!["h".to_string()]);
    assert_eq!(table.rows.len(), 2);
    // with no header cells the first plain row serves as the header
    let headerless = assemble_table(vec![
        (vec![], vec!["a".to_string()]),
        (vec![], vec!["b".to_string()]),
    ])
    .unwrap();
    assert_eq!(headerless.headers, vec!["a".to_string()]);
    assert_eq!(headerless.rows, vec![vec!["b".to_string()]]);
    assert!(assemble_table(vec![]).is_none());
}

#[test]
fn page_text_extraction_drops_scripts_and_collapses_space() {
    let html = "<html><head><SCRIPT type=\"x\">var a = 1;</SCRIPT>\
                <style>p { color: red }</style></head>\
                <body><p>Hello</p>\n\n  <b>world</b> &amp; more</body></html>";
    assert_eq!(extract_text_from_html(html), "Hello world & more");
    // an unclosed script block keeps its text; only the tag itself goes
    assert_eq!(extract_text_from_html("<script>alert(1)"), "alert(1)");
}
