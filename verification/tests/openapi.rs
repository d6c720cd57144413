use aspire_plugin::openapi::{
    document_entry_points, extract_oas_entry_points_from_source, find_template,
    registered_document, registered_documents, template_of,
};
use aspire_plugin::pattern::Capture;
use aspire_plugin::EntryPoint;

fn capture(argument: Option<&str>) -> Capture {
    vec![
        Some((0, "whole".to_string())),
        argument.map(|a| (3, a.to_string())),
    ]
}

fn entry(label: &str, description: &str) -> EntryPoint {
    EntryPoint {
        label: label.to_string(),
        path: "Program.cs".to_string(),
        line: None,
        method: Some("OAS".to_string()),
        description: Some(description.to_string()),
        detection_source: Some("regex".to_string()),
    }
}

fn extract(source: &str) -> Vec<EntryPoint> {
    extract_oas_entry_points_from_source(source, "api", "Program.cs")
}

#[test]
fn nothing_registered() {
    assert!(extract("").is_empty());
    assert!(extract("app.MapOpenApi();").is_empty());
    assert!(extract("AddOpenApi AddOpenApiX()").is_empty());
}

#[test]
fn swashbuckle_alone() {
    let expected = vec![entry("api: /swagger/v1/swagger.json", "OpenAPI spec (Swashbuckle)")];
    assert_eq!(extract("s.AddSwaggerGen();"), expected);
    assert_eq!(extract("s.AddOpenApi(); s.AddSwaggerGen\u{3000}\t\n(c);"), expected);
}

#[test]
fn default_document() {
    assert_eq!(
        extract("s.AddOpenApi(); app.MapOpenApi();"),
        vec![entry("api: /openapi/v1.json", "OpenAPI spec for document \"v1\"")]
    );
    assert_eq!(
        extract("s.AddOpenApi(\"\"); app.MapOpenApi();"),
        vec![entry("api: /openapi/v1.json", "OpenAPI spec for document \"v1\"")]
    );
}

#[test]
fn unmapped_documents_are_remarked_on() {
    assert_eq!(
        extract("s.AddOpenApiDefaults(x);"),
        vec![entry(
            "api: /openapi/v1.json",
            "OpenAPI spec for document \"v1\" (MapOpenApi not detected — may be dev-only)"
        )]
    );
}

#[test]
fn documents_are_sorted_and_listed_once() {
    let source = "AddOpenApi(\"v2\") AddOpenApi ( \"admin\") AddOpenApi(\"v2\") AddOpenApi() MapOpenApi()";
    let labels: Vec<String> = extract(source).into_iter().map(|e| e.label).collect();
    assert_eq!(
        labels,
        vec!["api: /openapi/admin.json", "api: /openapi/v1.json", "api: /openapi/v2.json"]
    );
}

#[test]
fn first_template_gives_all_paths() {
    let source = "AddOpenApi(\"a\") AddOpenApi(\"b\") MapOpenApi(\"plain\") \
        MapOpenApi(\"/docs/{documentName}/{documentName}.json\") MapOpenApi(\"/{other}\")";
    let labels: Vec<String> = extract(source).into_iter().map(|e| e.label).collect();
    assert_eq!(labels, vec!["api: /docs/a/a.json", "api: /docs/b/b.json"]);
}

#[test]
fn template_without_placeholder() {
    let source = "AddOpenApi(\"a\") MapOpenApi(\"/x/{y}\")";
    assert_eq!(extract(source)[0].label, "api: /x/{y}");
}

#[test]
fn registered_document_of_a_call() {
    assert_eq!(registered_document(&capture(Some("v3"))), "v3");
    assert_eq!(registered_document(&capture(Some(""))), "v1");
    assert_eq!(registered_document(&capture(None)), "v1");
    assert_eq!(registered_document(&vec![]), "v1");
}

#[test]
fn order_and_repetition_do_not_matter() {
    let a = vec![capture(Some("b")), capture(Some("a")), capture(Some("b"))];
    let b = vec![capture(Some("a")), capture(Some("b"))];
    assert_eq!(registered_documents(&a), vec!["a", "b"]);
    assert_eq!(
        document_entry_points(&a, false, &vec![], "r", "p"),
        document_entry_points(&b, false, &vec![], "r", "p")
    );
}

#[test]
fn templates_need_a_brace() {
    assert_eq!(template_of(&capture(Some("/x/{y}"))), Some("/x/{y}".to_string()));
    assert_eq!(template_of(&capture(Some("/x"))), None);
    assert_eq!(template_of(&capture(None)), None);
    let mappings = vec![capture(None), capture(Some("{1}")), capture(Some("{2}"))];
    assert_eq!(find_template(&mappings), Some("{1}".to_string()));
}

#[test]
fn mappings_count_only_where_mapped() {
    let registrations = vec![capture(Some("d"))];
    let mappings = vec![capture(Some("/{documentName}"))];
    assert_eq!(
        document_entry_points(&registrations, true, &mappings, "r", "p")[0].label,
        "r: /d"
    );
    assert_eq!(
        document_entry_points(&registrations, false, &mappings, "r", "p")[0].label,
        "r: /openapi/d.json"
    );
}

#[test]
fn quoted_arguments_name_documents() {
    let labels = |source: &str| -> Vec<String> {
        extract(source).into_iter().map(|e| e.label).collect()
    };
    assert_eq!(labels("AddOpenApi\t(\n \"x\", options)"), vec!["api: /openapi/x.json"]);
    assert_eq!(labels("AddOpenApiDefaults(\"x\")"), vec!["api: /openapi/x.json"]);
    assert_eq!(labels("AddOpenApi(name, \"x\")"), vec!["api: /openapi/v1.json"]);
    assert_eq!(labels("AddOpenApi(\"x"), vec!["api: /openapi/v1.json"]);
    assert_eq!(
        labels("AddOpenApi\nAddOpenApi(AddOpenApi(\"é\")"),
        vec!["api: /openapi/v1.json", "api: /openapi/é.json"]
    );
}

#[test]
fn registration_within_another() {
    let labels: Vec<String> =
        extract("AddOpenApi(\"AddOpenApi(\"b\")").into_iter().map(|e| e.label).collect();
    assert_eq!(labels, vec!["api: /openapi/AddOpenApi(.json"]);
}

#[test]
fn first_mapping_with_a_template_counts() {
    let source = "AddOpenApi() MapOpenApi(x) MapOpenApi(\"MapOpenApi(\"{c}\") \
        MapOpenApi(\"/a/{d}\") MapOpenApi(\"/b/{d}\")";
    assert_eq!(
        extract(source),
        vec![entry("api: /a/{d}", "OpenAPI spec for document \"v1\"")]
    );
}
