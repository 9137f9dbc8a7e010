use asha_services::provenance::parse_stored_generated_recipe;

const HASH: &str = "fnv1a64:0123456789abcdef";

fn ok(uri: &str) -> bool {
    parse_stored_generated_recipe(true, uri, HASH)
}

#[test]
fn well_formed_recipes_are_accepted() {
    assert!(ok("asha-generator://asha.levelgen.tunnel/tiny-enclosed/v1?seed=17&configHash=fnv1a64:00ff"));
    assert!(ok("asha-generator://p/q/v12?configHash=fnv1a64:1&seed=0"));
    assert!(ok("asha-generator://p/q/v+3?seed=+18446744073709551615&configHash=fnv1a64:"));
}

#[test]
fn malformed_recipes_are_refused() {
    assert!(!parse_stored_generated_recipe(false, "asha-generator://p/q/v1?seed=1&configHash=fnv1a64:1", HASH));
    assert!(!parse_stored_generated_recipe(true, "asha-generator://p/q/v1?seed=1&configHash=fnv1a64:1", "sha256:00"));
    for uri in [
        "generator://p/q/v1?seed=1&configHash=fnv1a64:1",
        "asha-generator://p/q/v1",
        "asha-generator:///q/v1?seed=1&configHash=fnv1a64:1",
        "asha-generator://p//v1?seed=1&configHash=fnv1a64:1",
        "asha-generator://p/q/1?seed=1&configHash=fnv1a64:1",
        "asha-generator://p/q/v0?seed=1&configHash=fnv1a64:1",
        "asha-generator://p/q/v?seed=1&configHash=fnv1a64:1",
        "asha-generator://p/q/v4294967296?seed=1&configHash=fnv1a64:1",
        "asha-generator://p/q/v1/x?seed=1&configHash=fnv1a64:1",
        "asha-generator://p/q/v1?seed=1",
        "asha-generator://p/q/v1?seed=1&seed=2",
        "asha-generator://p/q/v1?seed=x&configHash=fnv1a64:1",
        "asha-generator://p/q/v1?seed=18446744073709551616&configHash=fnv1a64:1",
        "asha-generator://p/q/v1?seed=1&configHash=sha256:1",
        "asha-generator://p/q/v1?seed=&configHash=fnv1a64:1",
        "asha-generator://p/q/v1?seed=1&configHash=fnv1a64:1&extra=2",
        "asha-generator://p/q/v1?seed=1&hash=fnv1a64:1",
    ] {
        assert!(!ok(uri), "{uri}");
    }
}

#[test]
fn recipe_grammar_agrees_with_std_number_parsing() {
    for text in ["1", "+1", "0", "007", "4294967295", "4294967296", "+", "", "-1", "1_0"] {
        let uri = format!("asha-generator://p/q/v{text}?seed=1&configHash=fnv1a64:1");
        let expected = matches!(text.parse::<u32>(), Ok(v) if v != 0);
        assert_eq!(ok(&uri), expected, "{text}");
    }
}
