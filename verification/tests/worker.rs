use uic_tui::worker::{file_action, rewrite_bare_imports, rewrite_foreign_package, web_root, FileAction};

#[test]
fn bare_lit_imports_point_into_the_worker_tree() {
    assert_eq!(
        rewrite_bare_imports("import { html } from \"lit\";", 1),
        "import { html } from \"../lit.js\";"
    );
    assert_eq!(
        rewrite_bare_imports("import 'lit/decorators.js';", 2),
        "import '../../lit/decorators.js';"
    );
    assert_eq!(
        rewrite_bare_imports("const m = await import(\"lit-html\");", 1),
        "const m = await import(\"../lit-html.js\");"
    );
    assert_eq!(
        rewrite_bare_imports("export * from\"@lit/reactive-element\";", 1),
        "export * from\"../@lit/reactive-element\";"
    );
}

#[test]
fn unrelated_specifiers_stay_as_they_are() {
    let source = "import React from \"react\";\nimport x from './local.js';\nconst lit = 1;";
    assert_eq!(rewrite_bare_imports(source, 3), source);
}

#[test]
fn at_the_root_only_the_entry_files_gain_their_extension() {
    assert_eq!(rewrite_bare_imports("from \"lit\"", 0), "from \"lit.js\"");
    assert_eq!(rewrite_bare_imports("from \"lit/x.js\"", 0), "from \"lit/x.js\"");
}

#[test]
fn the_web_sources_live_beside_the_manifest() {
    assert_eq!(web_root("/srv/uic_worker"), "/srv/uic_worker/web");
    assert_eq!(web_root("/srv/uic_worker/"), "/srv/uic_worker/web");
    assert_eq!(web_root(""), "web");
}

#[test]
fn modules_are_rewritten_at_their_depth_and_the_rest_copied() {
    assert_eq!(file_action("index.js", 1, 2), FileAction::Rewrite { depth: 2 });
    assert_eq!(file_action("x.js", 3, 1), FileAction::Rewrite { depth: 3 });
    assert_eq!(file_action("package.json", 1, 2), FileAction::Copy);
    assert_eq!(file_action("a.JS", 1, 0), FileAction::Copy);
    assert_eq!(file_action(".js", 1, 0), FileAction::Copy);
    assert_eq!(file_action("..js", 1, 0), FileAction::Rewrite { depth: 0 });
}

#[test]
fn a_package_plan_covers_every_file_in_order() {
    let files = vec![
        ("README.md".to_string(), 1),
        ("index.js".to_string(), 1),
        ("button.js".to_string(), 2),
    ];
    assert_eq!(
        rewrite_foreign_package(&files, 1),
        vec![FileAction::Copy, FileAction::Rewrite { depth: 1 }, FileAction::Rewrite { depth: 2 }]
    );
    assert!(rewrite_foreign_package(&Vec::new(), 4).is_empty());
}

#[test]
fn a_second_rewrite_changes_nothing_more() {
    let sources = [
        "import { html } from \"lit\";\nimport('lit-element');\nexport * from\"@lit/reactive-element\";",
        "import \"lit/directives/class-map.js\"; from 'lit-html'",
        "from \"from \"lit\" import(\"lit\")",
    ];
    for source in sources {
        for depth in 0..4 {
            let once = rewrite_bare_imports(source, depth);
            assert_eq!(rewrite_bare_imports(&once, depth), once);
        }
    }
    let once = rewrite_bare_imports("import { html } from \"lit\";", 2);
    assert_eq!(once, "import { html } from \"../../lit.js\";");
    assert_eq!(rewrite_bare_imports(&once, 2), once);
}
