use spall_cli::apis::{api_listing, refresh_plan, RefreshPlan};
use spall_cli::error::SpallCliError;

fn s(x: &str) -> String {
    x.to_string()
}

fn entries() -> Vec<(String, String)> {
    vec![
        (s("petstore"), s("https://petstore.test/openapi.json")),
        (s("local"), s("./specs/local.yaml")),
        (s("a-very-long-api-name-here"), s("http://x.test/spec")),
    ]
}

#[test]
fn api_list_pads_names() {
    assert_eq!(
        api_listing(&entries()),
        "Registered APIs:\n  petstore             https://petstore.test/openapi.json\n  local                ./specs/local.yaml\n  a-very-long-api-name-here http://x.test/spec"
    );
    assert_eq!(api_listing(&Vec::new()), "Registered APIs:\n  (no APIs registered yet)");
}

#[test]
fn refresh_all_takes_remote_sources_only() {
    match refresh_plan(true, Some("local"), &entries()) {
        Ok(RefreshPlan::All(v)) => assert_eq!(
            v,
            vec![
                (s("petstore"), s("https://petstore.test/openapi.json")),
                (s("a-very-long-api-name-here"), s("http://x.test/spec")),
            ]
        ),
        _ => panic!("expected a refresh of all remote APIs"),
    }
}

#[test]
fn refresh_one_by_name() {
    match refresh_plan(false, Some("petstore"), &entries()) {
        Ok(RefreshPlan::One(n, src)) => {
            assert_eq!(n, "petstore");
            assert_eq!(src, "https://petstore.test/openapi.json");
        }
        _ => panic!("expected one refresh"),
    }
    assert!(matches!(refresh_plan(false, Some("local"), &entries()), Ok(RefreshPlan::FileSource(n)) if n == "local"));
    match refresh_plan(false, Some("ghost"), &entries()) {
        Err(SpallCliError::Usage(m)) => assert_eq!(m, "Unknown API: ghost"),
        _ => panic!("expected a usage error"),
    }
    match refresh_plan(false, None, &entries()) {
        Err(SpallCliError::Usage(m)) => assert_eq!(m, "Provide an API name or use --all"),
        _ => panic!("expected a usage error"),
    }
}
