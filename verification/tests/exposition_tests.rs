use dnsmonitor::{handle_http_request, http_response, render_metrics, Metrics, MetricsRegistry};

const P: &str = "yodaforce_application_de_codecoverage_crm_dns_monitor_dnsMonitor_";

fn readme_registry() -> MetricsRegistry {
    let mut registry = MetricsRegistry::new();
    for name in ["ldap-db-tkom.tv", "www.heise.de", "SOABP-PRD.de.ai"] {
        registry.add_name(name.to_string());
    }
    for (name, min, max) in
        [("ldap-db-tkom.tv", 637u64, 1158u64), ("www.heise.de", 586, 82415), ("SOABP-PRD.de.ai", 484, 1121)]
    {
        Metrics::set_min_max(&mut registry, name, min);
        Metrics::set_min_max(&mut registry, name, max);
        Metrics::average(&mut registry, name, min);
        Metrics::average(&mut registry, name, max);
    }
    for _ in 0..4 {
        Metrics::set_min_max_and_increment_counter(&mut registry, "www.heise.de", 30000);
    }
    registry
}

fn readme_page() -> String {
    let mut page = String::new();
    page += &format!("# HELP {P}failurecounter Custom metric returning the failures per dns name.\n");
    page += &format!("# TYPE {P}failurecounter gauge\n");
    page += &format!("{P}failurecounter{{dns=\"ldap-db-tkom.tv\"}} 0\n");
    page += &format!("{P}failurecounter{{dns=\"www.heise.de\"}} 4\n");
    page += &format!("{P}failurecounter{{dns=\"SOABP-PRD.de.ai\"}} 0\n");
    page += &format!("# HELP {P}min Custom metric returning the min time in microseconds per dns name.\n");
    page += &format!("# TYPE {P}min gauge\n");
    page += &format!("{P}min{{dns=\"ldap-db-tkom.tv\"}} 637\n");
    page += &format!("{P}min{{dns=\"www.heise.de\"}} 586\n");
    page += &format!("{P}min{{dns=\"SOABP-PRD.de.ai\"}} 484\n");
    page += &format!("# HELP {P}max Custom metric returning the max time in microseconds per dns name.\n");
    page += &format!("# TYPE {P}max gauge\n");
    page += &format!("{P}max{{dns=\"ldap-db-tkom.tv\"}} 1158\n");
    page += &format!("{P}max{{dns=\"www.heise.de\"}} 82415\n");
    page += &format!("{P}max{{dns=\"SOABP-PRD.de.ai\"}} 1121\n");
    page += &format!("# HELP {P}average Custom metric returning the average time in microseconds per dns name.\n");
    page += &format!("# TYPE {P}average gauge\n");
    page += &format!("{P}average{{dns=\"ldap-db-tkom.tv\"}} 897.5\n");
    page += &format!("{P}average{{dns=\"www.heise.de\"}} 41500.5\n");
    page += &format!("{P}average{{dns=\"SOABP-PRD.de.ai\"}} 802.5\n");
    page
}

fn readme_averages() -> Vec<String> {
    vec!["897.5".to_string(), "41500.5".to_string(), "802.5".to_string()]
}

#[test]
fn page_lists_every_group_once() {
    let registry = readme_registry();
    assert_eq!(render_metrics(&registry, &readme_averages()), readme_page());
}

#[test]
fn page_of_empty_registry() {
    let registry = MetricsRegistry::new();
    let expected = format!(
        "# HELP {P}failurecounter Custom metric returning the failures per dns name.\n\
         # TYPE {P}failurecounter gauge\n\
         # HELP {P}max Custom metric returning the max time in microseconds per dns name.\n\
         # TYPE {P}max gauge\n"
    );
    assert_eq!(render_metrics(&registry, &Vec::new()), expected);
}

#[test]
fn page_leaves_out_missing_minimum_and_average() {
    let mut registry = MetricsRegistry::new();
    registry.add_name("a.example".to_string());
    registry.add_name("b.example".to_string());
    Metrics::set_min_max(&mut registry, "b.example", 42);
    Metrics::average(&mut registry, "b.example", 42);
    let page = render_metrics(&registry, &vec!["NaN".to_string(), "42".to_string()]);
    let expected = format!(
        "# HELP {P}failurecounter Custom metric returning the failures per dns name.\n\
         # TYPE {P}failurecounter gauge\n\
         {P}failurecounter{{dns=\"a.example\"}} 0\n\
         {P}failurecounter{{dns=\"b.example\"}} 0\n\
         # HELP {P}min Custom metric returning the min time in microseconds per dns name.\n\
         # TYPE {P}min gauge\n\
         {P}min{{dns=\"b.example\"}} 42\n\
         # HELP {P}max Custom metric returning the max time in microseconds per dns name.\n\
         # TYPE {P}max gauge\n\
         {P}max{{dns=\"a.example\"}} 0\n\
         {P}max{{dns=\"b.example\"}} 42\n\
         # HELP {P}average Custom metric returning the average time in microseconds per dns name.\n\
         # TYPE {P}average gauge\n\
         {P}average{{dns=\"b.example\"}} 42\n"
    );
    assert_eq!(page, expected);
}

#[test]
fn average_of_zero_durations_is_shown() {
    // 0 / 2 is a number, so the average line appears
    let mut registry = MetricsRegistry::new();
    registry.add_name("z.example".to_string());
    Metrics::average(&mut registry, "z.example", 0);
    Metrics::average(&mut registry, "z.example", 0);
    let page = render_metrics(&registry, &vec!["0".to_string()]);
    assert!(page.ends_with(&format!("{P}average{{dns=\"z.example\"}} 0\n")));
}

#[test]
fn response_frames_body_with_byte_length() {
    let response = http_response("There's nothing to see here.");
    assert_eq!(
        response,
        "HTTP/1.1 200 OK\r\nConnection: close\r\nContent-Type: text/plain\r\nContent-Length: 28\r\n\r\nThere's nothing to see here."
    );
    let response = http_response("ä€");
    assert_eq!(
        response,
        "HTTP/1.1 200 OK\r\nConnection: close\r\nContent-Type: text/plain\r\nContent-Length: 5\r\n\r\nä€"
    );
}

#[test]
fn other_requests_get_nothing_and_keep_metrics() {
    let mut registry = readme_registry();
    let before: Vec<Metrics> = (0..registry.len()).map(|i| registry.metrics_at(i)).collect();
    let answer = handle_http_request(&mut registry, "GET / HTTP/1.1", &readme_averages());
    assert_eq!(
        answer,
        "HTTP/1.1 200 OK\r\nConnection: close\r\nContent-Type: text/plain\r\nContent-Length: 28\r\n\r\nThere's nothing to see here."
    );
    let after: Vec<Metrics> = (0..registry.len()).map(|i| registry.metrics_at(i)).collect();
    assert_eq!(before, after);
    let answer = handle_http_request(&mut registry, "", &Vec::new());
    assert!(answer.ends_with("There's nothing to see here."));
}

#[test]
fn metrics_request_answers_page_and_resets() {
    let mut registry = readme_registry();
    let answer = handle_http_request(&mut registry, "GET /metrics HTTP/1.1", &readme_averages());
    let page = readme_page();
    let expected = format!(
        "HTTP/1.1 200 OK\r\nConnection: close\r\nContent-Type: text/plain\r\nContent-Length: {}\r\n\r\n{}",
        page.len(),
        page
    );
    assert_eq!(answer, expected);
    for i in 0..registry.len() {
        assert_eq!(registry.metrics_at(i), Metrics::new());
    }
}

#[test]
fn second_scrape_shows_zeros_only() {
    let mut registry = readme_registry();
    handle_http_request(&mut registry, "GET /metrics HTTP/1.1", &readme_averages());
    let averages = vec!["NaN".to_string(); 3];
    let answer = handle_http_request(&mut registry, "GET /metrics HTTP/1.1", &averages);
    let page = format!(
        "# HELP {P}failurecounter Custom metric returning the failures per dns name.\n\
         # TYPE {P}failurecounter gauge\n\
         {P}failurecounter{{dns=\"ldap-db-tkom.tv\"}} 0\n\
         {P}failurecounter{{dns=\"www.heise.de\"}} 0\n\
         {P}failurecounter{{dns=\"SOABP-PRD.de.ai\"}} 0\n\
         # HELP {P}max Custom metric returning the max time in microseconds per dns name.\n\
         # TYPE {P}max gauge\n\
         {P}max{{dns=\"ldap-db-tkom.tv\"}} 0\n\
         {P}max{{dns=\"www.heise.de\"}} 0\n\
         {P}max{{dns=\"SOABP-PRD.de.ai\"}} 0\n"
    );
    assert!(answer.ends_with(&page));
    assert!(answer.contains(&format!("Content-Length: {}\r\n", page.len())));
}
