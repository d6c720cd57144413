use aspire_plugin::resources::{
    classify_lowercase, classify_resource, detect_resources, line_of, resource_of, resources_of,
};

fn classify(suffix: &str) -> (String, String) {
    classify_resource(suffix, "n")
}

fn pair(label: &str, kind: &str) -> (String, String) {
    (label.to_string(), kind.to_string())
}

#[test]
fn classification() {
    assert_eq!(classify("Project"), pair("project: n", "PROJECT"));
    assert_eq!(classify("Postgres"), pair("container: n (postgres)", "CONTAINER"));
    assert_eq!(classify("PostgreSQL"), pair("container: n (postgres)", "CONTAINER"));
    assert_eq!(classify("Redis"), pair("container: n (redis)", "CONTAINER"));
    assert_eq!(classify("RabbitMQ"), pair("container: n (rabbitmq)", "CONTAINER"));
    assert_eq!(classify("MongoDB"), pair("container: n (mongodb)", "CONTAINER"));
    assert_eq!(classify("MySql"), pair("container: n (mysql)", "CONTAINER"));
    assert_eq!(classify("Kafka"), pair("container: n (kafka)", "CONTAINER"));
    assert_eq!(classify("Nats"), pair("container: n (nats)", "CONTAINER"));
    assert_eq!(classify("SqlServer"), pair("container: n (sqlserver)", "CONTAINER"));
    assert_eq!(classify("Valkey"), pair("container: n (valkey)", "CONTAINER"));
    assert_eq!(classify("NpmApp"), pair("resource: n (npm)", "RESOURCE"));
    assert_eq!(classify("NodeJsApp"), pair("resource: n (npm)", "RESOURCE"));
    assert_eq!(classify("Executable"), pair("resource: n (executable)", "RESOURCE"));
    assert_eq!(classify("Container"), pair("container: n (custom)", "CONTAINER"));
    assert_eq!(classify("Parameter"), pair("resource: n (parameter)", "RESOURCE"));
}

#[test]
fn case_of_the_suffix_does_not_matter() {
    assert_eq!(classify("pROJECT"), classify("Project"));
    assert_eq!(classify("REDIS"), classify("redis"));
}

#[test]
fn other_scripts_are_lowered_too() {
    assert_eq!(classify("ÄB"), pair("resource: n (äb)", "RESOURCE"));
}

#[test]
fn lower_case_is_taken_as_it_stands() {
    assert_eq!(classify_lowercase("redis", "c"), pair("container: c (redis)", "CONTAINER"));
    assert_eq!(classify_lowercase("Redis", "c"), pair("resource: c (Redis)", "RESOURCE"));
}

#[test]
fn lines_are_counted_from_one() {
    let source = "é\nab\n\nc";
    assert_eq!(line_of(source, 0), 1);
    assert_eq!(line_of(source, 2), 1);
    assert_eq!(line_of(source, 3), 2);
    assert_eq!(line_of(source, 7), 4);
    assert_eq!(line_of(source, source.len()), 4);
}

#[test]
fn resource_of_a_match() {
    let capture = vec![
        Some((3, "match".to_string())),
        Some((3, "Project".to_string())),
        Some((3, "My_Api".to_string())),
        Some((3, "api".to_string())),
    ];
    let resource = resource_of(&capture, "a\n\nb", "Program.cs");
    assert_eq!(resource.entry.line, Some(3));
    assert_eq!(resource.entry.label, "project: api");
    assert_eq!(resource.entry.description, Some("builder.AddProject(\"api\")".to_string()));
    assert_eq!(resource.name, "api");
    assert_eq!(resource.project, Some("My_Api".to_string()));
    // Groups that took no part in the match count as empty.
    let bare = resource_of(&vec![], "a\n\nb", "Program.cs");
    assert_eq!(bare.entry.line, Some(1));
    assert_eq!(bare.entry.label, "resource:  ()");
    assert_eq!(bare.project, None);
    assert_eq!(resources_of(&vec![capture, vec![]], "a\n\nb", "Program.cs"), vec![resource, bare]);
}

#[test]
fn declarations_are_found_in_order() {
    let source = "// é\nbuilder.AddRedis(\"cache\");\nbuilder\n  .AddProject< Projects.Deep.My_Api >( \"api\" );\nbuilder.AddX2 (\"é\"); builder.Add(\"no\"); builder.Add2(\"no\"); builder.AddY(\"\");";
    let found = detect_resources(source, "Program.cs");
    let names: Vec<&str> = found.iter().map(|r| r.name.as_str()).collect();
    assert_eq!(names, vec!["cache", "api", "é"]);
    let lines: Vec<Option<u32>> = found.iter().map(|r| r.entry.line).collect();
    assert_eq!(lines, vec![Some(2), Some(3), Some(5)]);
    assert_eq!(found[1].project, Some("My_Api".to_string()));
    assert_eq!(found[0].project, None);
    assert_eq!(found[2].entry.label, "resource: é (x2)");
    assert!(detect_resources("", "Program.cs").is_empty());
}

#[test]
fn forms_of_a_declaration() {
    for source in [
        "builder.AddX(\"a\")",
        "builder\u{a0}.\n AddX\t<\u{2003}N.M.T_1\n>\n(\n\"a\"",
        "mybuilder.AddX<T>(\"a\")",
        "builder.AddX<..T>(\"a\")",
        "builder.AddX(\"a\nb\")",
    ] {
        assert_eq!(detect_resources(source, "p").len(), 1, "{}", source);
    }
    for source in [
        "builder.AddX()",
        "builder.AddX(\"\")",
        "builder.AddX(\"a",
        "builder.AddX<.T>(\"a\")",
        "builder.AddX<T, U>(\"a\")",
        "Builder.AddX(\"a\")",
        "builder.addX(\"a\")",
        "builder.Add_X(\"a\")",
        "builder.Add X(\"a\")",
    ] {
        assert!(detect_resources(source, "p").is_empty(), "{}", source);
    }
}

#[test]
fn no_declaration_is_passed_over() {
    let source = "builder.Add\nbuilder.AddRedis(builder.AddRedis(\"a\")builder.AddKafka(\"b\"\n\
        é builder . AddProject<P.Q>(x)builder.AddProject<P.R>(\"c\")";
    let found: Vec<(String, Option<u32>, Option<String>)> = detect_resources(source, "Program.cs")
        .into_iter()
        .map(|r| (r.name, r.entry.line, r.project))
        .collect();
    assert_eq!(
        found,
        vec![
            ("a".to_string(), Some(2), None),
            ("b".to_string(), Some(2), None),
            ("c".to_string(), Some(3), Some("R".to_string())),
        ]
    );
}

#[test]
fn declaration_within_another() {
    let found = detect_resources("builder.AddRedis(\" builder.AddKafka(\"b\")", "Program.cs");
    assert_eq!(found.len(), 1);
    assert_eq!(found[0].name, " builder.AddKafka(");
    assert_eq!(found[0].entry.label, "container:  builder.AddKafka( (redis)");
}
