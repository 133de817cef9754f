use dsh_desktop::dsh::{
    bundle_pruning, bundled_runtime, can_launch_local, dsh_bin_under, find_bundled_runtime,
    find_checkout, find_node, find_npm, launch_command_line, managed_bin, managed_version,
    needs_managed_install,
    plugin_add_args, plugin_already_present, plugin_installed_on_disk, profile_package_path,
    npm_prefix_from_bin, prune_profile_text,
    resolve_cli, resolve_launch, runtime_prefix, LaunchEnv, LaunchPlan, STARTER_PLUGINS,
    STARTER_PLUGIN_PACKAGES,
};
use dsh_desktop::config::DshConfig;
use dsh_desktop::path::{EntryKind, NativePath};
use std::cell::RefCell;

fn path(text: &str) -> NativePath {
    let (root, rest) = match text.strip_prefix('/') {
        Some(rest) => ("/".to_string(), rest),
        None => (String::new(), text),
    };
    NativePath {
        root,
        parts: rest.split('/').filter(|p| !p.is_empty()).map(String::from).collect(),
        sep: '/',
    }
}

/// An in-memory filesystem: the files and directories it holds, by text.
struct Disk {
    files: Vec<String>,
    dirs: Vec<String>,
}

impl Disk {
    fn new(files: &[&str], dirs: &[&str]) -> Disk {
        Disk {
            files: files.iter().map(|s| s.to_string()).collect(),
            dirs: dirs.iter().map(|s| s.to_string()).collect(),
        }
    }

    fn kind(&self, p: &NativePath) -> EntryKind {
        let t = p.text();
        if self.files.contains(&t) {
            EntryKind::File
        } else if self.dirs.contains(&t) {
            EntryKind::Dir
        } else {
            EntryKind::Missing
        }
    }
}

fn no_path(_: &str) -> Option<NativePath> {
    None
}

fn env(os: &str) -> LaunchEnv {
    LaunchEnv { os: os.into(), desktop_bin: None, checkout: None, node: None }
}

#[test]
fn checkout_probe_needs_workspace_and_cli() {
    let disk = Disk::new(&["/tmp/probe/pnpm-workspace.yaml"], &["/tmp/probe/apps/cli"]);
    let probe = |p: &NativePath| disk.kind(p);
    assert!(find_checkout(None, &probe).is_none());
    assert!(bundled_runtime(&path("/tmp/probe"), "linux", &probe).is_none());
    assert_eq!(find_checkout(Some(path("/tmp/probe")), &probe).map(|p| p.text()), Some("/tmp/probe".to_string()));
    let half = Disk::new(&["/tmp/probe/pnpm-workspace.yaml"], &[]);
    let probe = |p: &NativePath| half.kind(p);
    assert!(find_checkout(Some(path("/tmp/probe")), &probe).is_none());
}

#[test]
fn plugin_add_args_match_official_cli() {
    assert_eq!(
        plugin_add_args("github:zhu1090093659/dsh-web-ui"),
        vec!["plugin", "--profile", "web", "add", "github:zhu1090093659/dsh-web-ui"]
    );
}

#[test]
fn starter_plugins_are_the_four_web_profile_defaults() {
    let specs: Vec<&str> = STARTER_PLUGINS.iter().map(|(_, spec)| *spec).collect();
    assert_eq!(
        specs,
        vec![
            "github:zhu1090093659/dsh-web-ui",
            "github:WYH66666666/DSH-Transparent-UI-Plugin",
            "github:omdsh-dev/DSH-better-sidebar",
            "github:Nagi-ovo/dsh-visualize",
        ]
    );
}

#[test]
fn duplicate_plugin_errors_are_benign() {
    assert!(plugin_already_present("Plugin already installed"));
    assert!(plugin_already_present("entry exists in profile"));
    assert!(!plugin_already_present("network timeout"));
}

const PROFILE_MANIFEST: &str = r#"{
  "name": "dsh-profile-web",
  "private": true,
  "dependencies": {
    "dsh-web-ui": "github:zhu1090093659/dsh-web-ui",
    "dsh-better-sidebar": "github:omdsh-dev/DSH-better-sidebar",
    "@dsh-external/dsh-visualize": "github:Nagi-ovo/dsh-visualize"
  },
  "dsh": {
    "profile": {
      "bundles": [
        "@deepseek-ai/dsh-base",
        "@deepseek-ai/dsh-web-app",
        "dsh-better-sidebar",
        "@dsh-external/dsh-visualize"
      ]
    }
  }
}
"#;

#[test]
fn prune_missing_profile_bundles_drops_absent_starter_plugins() {
    let disk = Disk::new(&["/data/dsh-home/profiles/web/node_modules/dsh-web-ui/package.json"], &[]);
    let probe = |p: &NativePath| disk.kind(p);
    let (rewritten, removed) = prune_profile_text(PROFILE_MANIFEST, &path("/data"), &probe).unwrap();
    assert_eq!(
        removed,
        vec![
            "dsh-better-sidebar".to_string(),
            "@dsh-external/dsh-visualize".to_string()
        ]
    );
    let rewritten = rewritten.unwrap();
    assert!(rewritten.ends_with("}\n"));
    let value: serde_json::Value = serde_json::from_str(&rewritten).unwrap();
    let bundles = value
        .pointer("/dsh/profile/bundles")
        .and_then(|v| v.as_array())
        .unwrap();
    let names: Vec<&str> = bundles.iter().filter_map(|v| v.as_str()).collect();
    assert_eq!(
        names,
        vec!["@deepseek-ai/dsh-base", "@deepseek-ai/dsh-web-app"]
    );
    assert!(value
        .pointer("/dependencies/dsh-better-sidebar")
        .is_none());
    assert!(value
        .pointer("/dependencies/@dsh-external/dsh-visualize")
        .is_none());
    let deps = value.get("dependencies").and_then(|d| d.as_object()).unwrap();
    assert_eq!(deps.keys().collect::<Vec<_>>(), vec!["dsh-web-ui"]);
    assert_eq!(value.get("name").and_then(|n| n.as_str()), Some("dsh-profile-web"));
    assert_eq!(value.get("private").and_then(|n| n.as_bool()), Some(true));
    assert_eq!(
        deps.get("dsh-web-ui").and_then(|v| v.as_str()),
        Some("github:zhu1090093659/dsh-web-ui")
    );
}

#[test]
fn pruning_keeps_non_string_bundles_and_other_fields() {
    let probe = |_: &NativePath| EntryKind::Missing;
    let text = r#"{"a":[1,{"b":null}],"dsh":{"x":2,"profile":{"bundles":[7,"dsh-better-sidebar",{"k":"v"}],"y":3}},"dependencies":{"dsh-better-sidebar":"1","z":"2"}}"#;
    let (rewritten, removed) = prune_profile_text(text, &path("/data"), &probe).unwrap();
    assert_eq!(removed, vec!["dsh-better-sidebar".to_string()]);
    let value: serde_json::Value = serde_json::from_str(&rewritten.unwrap()).unwrap();
    let expected: serde_json::Value = serde_json::from_str(
        r#"{"a":[1,{"b":null}],"dsh":{"x":2,"profile":{"bundles":[7,{"k":"v"}],"y":3}},"dependencies":{"z":"2"}}"#,
    )
    .unwrap();
    assert_eq!(value, expected);
}

#[test]
fn prune_profile_text_leaves_untouched_documents_alone() {
    let probe = |_: &NativePath| EntryKind::Missing;
    let data = path("/data");
    assert_eq!(prune_profile_text("{\"dsh\":{}}", &data, &probe), Ok((None, vec![])));
    assert_eq!(
        prune_profile_text("{\"dsh\":{\"profile\":{\"bundles\":\"dsh-web-ui\"}}}", &data, &probe),
        Ok((None, vec![]))
    );
    assert_eq!(
        prune_profile_text(
            "{\"dsh\":{\"profile\":{\"bundles\":[\"@deepseek-ai/dsh-base\",\"other\",7]}}}",
            &data,
            &probe
        ),
        Ok((None, vec![]))
    );
    let error = prune_profile_text("{ not json", &data, &probe).unwrap_err();
    assert!(error.contains("line 1"));
}

#[test]
fn pruning_keeps_the_installed_starter_bundle() {
    let disk = Disk::new(&["/data/dsh-home/profiles/web/node_modules/dsh-better-sidebar/package.json"], &[]);
    let probe = |p: &NativePath| disk.kind(p);
    let (rewritten, removed) = prune_profile_text(PROFILE_MANIFEST, &path("/data"), &probe).unwrap();
    assert_eq!(removed, vec!["@dsh-external/dsh-visualize".to_string()]);
    let value: serde_json::Value = serde_json::from_str(&rewritten.unwrap()).unwrap();
    let names: Vec<&str> = value["dsh"]["profile"]["bundles"]
        .as_array()
        .unwrap()
        .iter()
        .filter_map(|v| v.as_str())
        .collect();
    assert_eq!(names, vec!["@deepseek-ai/dsh-base", "@deepseek-ai/dsh-web-app", "dsh-better-sidebar"]);
    assert!(value["dependencies"].get("dsh-better-sidebar").is_some());
    assert!(value["dependencies"].get("@dsh-external/dsh-visualize").is_none());
}

#[test]
fn plugin_installed_on_disk_checks_scoped_and_bare_packages() {
    let disk = Disk::new(
        &["/data/dsh-home/profiles/web/node_modules/@dsh-external/dsh-visualize/package.json"],
        &[],
    );
    let probe = |p: &NativePath| disk.kind(p);
    assert!(plugin_installed_on_disk(&path("/data"), "@dsh-external/dsh-visualize", &probe));
    assert!(!plugin_installed_on_disk(&path("/data"), "dsh-better-sidebar", &probe));
}

#[test]
fn starter_plugin_package_names_align_with_specs() {
    assert_eq!(STARTER_PLUGINS.len(), STARTER_PLUGIN_PACKAGES.len());
    assert_eq!(STARTER_PLUGIN_PACKAGES[2], "dsh-better-sidebar");
    assert_eq!(STARTER_PLUGIN_PACKAGES[3], "@dsh-external/dsh-visualize");
}

#[test]
fn pruning_keeps_non_strings_other_packages_and_installed_ones() {
    let disk = Disk::new(&["/data/dsh-home/profiles/web/node_modules/dsh-web-ui/package.json"], &[]);
    let probe = |p: &NativePath| disk.kind(p);
    let bundles = vec![
        None,
        Some("dsh-web-ui".to_string()),
        Some("some-other-bundle".to_string()),
        Some("@deepseek-ai/dsh-client-ui-aqua".to_string()),
        Some("dsh-better-sidebar".to_string()),
    ];
    let (keep, removed) = bundle_pruning(&bundles, &path("/data"), &probe);
    assert_eq!(keep, vec![true, true, true, true, false]);
    assert_eq!(removed, vec!["dsh-better-sidebar".to_string()]);
}

#[test]
fn paths_of_the_managed_runtime() {
    let data = path("/data");
    assert_eq!(runtime_prefix(&data).text(), "/data/dsh-runtime");
    assert_eq!(
        dsh_bin_under(&runtime_prefix(&data)).text(),
        "/data/dsh-runtime/node_modules/@deepseek-ai/dsh/lib/bin.js"
    );
    assert_eq!(profile_package_path(&data).text(), "/data/dsh-home/profiles/web/package.json");
    let disk = Disk::new(&["/data/dsh-runtime/node_modules/@deepseek-ai/dsh/lib/bin.js"], &[]);
    let probe = |p: &NativePath| disk.kind(p);
    assert!(managed_bin(&runtime_prefix(&data), &probe).is_some());
    let empty = Disk::new(&[], &[]);
    let probe = |p: &NativePath| empty.kind(p);
    assert!(managed_bin(&runtime_prefix(&data), &probe).is_none());
}

#[test]
fn bundled_runtime_is_found_below_src_tauri() {
    let disk = Disk::new(
        &[
            "/app/src-tauri/runtime/node/node.exe",
            "/app/src-tauri/runtime/dsh/node_modules/@deepseek-ai/dsh/lib/bin.js",
        ],
        &[],
    );
    let probe = |p: &NativePath| disk.kind(p);
    assert!(find_bundled_runtime(&[path("/res"), path("/app")], "linux", &probe).is_none());
    let (node, bin) = find_bundled_runtime(&[path("/res"), path("/app")], "windows", &probe).unwrap();
    assert_eq!(node.text(), "/app/src-tauri/runtime/node/node.exe");
    assert_eq!(bin.text(), "/app/src-tauri/runtime/dsh/node_modules/@deepseek-ai/dsh/lib/bin.js");
}

#[test]
fn platform_can_launch() {
    assert!(can_launch_local("linux"));
    assert!(can_launch_local("windows"));
    assert!(!can_launch_local("android"));
    assert!(!can_launch_local("ios"));
}

#[test]
fn lookups_prefer_cmd_then_plain_names() {
    let which = |name: &str| {
        if name == "npm" || name == "node.exe" {
            Some(path(&format!("/usr/bin/{name}")))
        } else {
            None
        }
    };
    assert_eq!(find_npm(&which).map(|p| p.text()), Some("/usr/bin/npm".to_string()));
    assert!(find_npm(&no_path).is_none());
    let disk = Disk::new(&["/opt/node"], &[]);
    let probe = |p: &NativePath| disk.kind(p);
    assert_eq!(find_node(Some(path("/opt/node")), &probe, &which).map(|p| p.text()), Some("/opt/node".to_string()));
    assert_eq!(find_node(Some(path("/opt/missing")), &probe, &which).map(|p| p.text()), Some("/usr/bin/node.exe".to_string()));
}

#[test]
fn resolve_prefers_explicit_binary() {
    let empty = Disk::new(&[], &[]);
    let probe = |p: &NativePath| empty.kind(p);
    let linked = RefCell::new(Vec::new());
    let link = |h: &NativePath, p: &NativePath| linked.borrow_mut().push((h.text(), p.text()));
    let mut e = env("linux");
    e.desktop_bin = Some(path("/opt/dsh"));
    let cli = vec!["web".to_string()];
    let plan = resolve_cli(&path("/data"), &[], &cli, &e, &probe, &no_path, &link).unwrap();
    assert_eq!(plan.program.text(), "/opt/dsh");
    assert_eq!(plan.args, cli);
    assert_eq!(plan.cwd.map(|p| p.text()), Some("/data/dsh-home".to_string()));
    assert_eq!(plan.env, vec![("DSH_HOME".to_string(), "/data/dsh-home".to_string())]);
    assert!(linked.borrow().is_empty());
}

#[test]
fn resolve_uses_bundled_runtime_with_hook() {
    let disk = Disk::new(
        &[
            "/res/runtime/node/node",
            "/res/runtime/dsh/node_modules/@deepseek-ai/dsh/lib/bin.js",
            "/res/hooks/resolve-register.mjs",
        ],
        &[],
    );
    let probe = |p: &NativePath| disk.kind(p);
    let linked = RefCell::new(Vec::new());
    let link = |h: &NativePath, p: &NativePath| linked.borrow_mut().push((h.text(), p.text()));
    let cli = vec!["plugin".to_string(), "list".to_string()];
    let plan = resolve_cli(&path("/data"), &[path("/res")], &cli, &env("linux"), &probe, &no_path, &link).unwrap();
    assert_eq!(plan.program.text(), "/res/runtime/node/node");
    assert_eq!(
        plan.args,
        vec![
            "--import".to_string(),
            "file:///res/hooks/resolve-register.mjs".to_string(),
            "/res/runtime/dsh/node_modules/@deepseek-ai/dsh/lib/bin.js".to_string(),
            "plugin".to_string(),
            "list".to_string(),
        ]
    );
    assert_eq!(plan.cwd.as_ref().map(|p| p.text()), Some("/res/runtime/dsh".to_string()));
    assert_eq!(
        plan.env,
        vec![
            ("DSH_HOME".to_string(), "/data/dsh-home".to_string()),
            ("DSH_DESKTOP_PREFIX".to_string(), "/res/runtime/dsh".to_string()),
            ("NODE_PATH".to_string(), "/res/runtime/dsh/node_modules".to_string()),
        ]
    );
    assert_eq!(*linked.borrow(), vec![("/data/dsh-home".to_string(), "/res/runtime/dsh".to_string())]);
    assert_eq!(
        launch_command_line(&plan),
        "/res/runtime/node/node --import file:///res/hooks/resolve-register.mjs /res/runtime/dsh/node_modules/@deepseek-ai/dsh/lib/bin.js plugin list"
    );
}

#[test]
fn resolve_checkout_and_managed_errors() {
    let disk = Disk::new(&["/src/pnpm-workspace.yaml"], &["/src/apps/cli"]);
    let probe = |p: &NativePath| disk.kind(p);
    let link = |_: &NativePath, _: &NativePath| {};
    let mut e = env("linux");
    e.checkout = Some(path("/src"));
    let cli = vec!["web".to_string()];
    assert_eq!(
        resolve_cli(&path("/data"), &[], &cli, &e, &probe, &no_path, &link).unwrap_err(),
        "pnpm not found on PATH for DSH_CHECKOUT"
    );
    let which = |name: &str| if name == "pnpm" { Some(path("/usr/bin/pnpm")) } else { None };
    let plan = resolve_cli(&path("/data"), &[], &cli, &e, &probe, &which, &link).unwrap();
    assert_eq!(plan.program.text(), "/usr/bin/pnpm");
    assert_eq!(plan.args, vec!["dsh".to_string(), "web".to_string()]);
    assert_eq!(plan.cwd.map(|p| p.text()), Some("/src".to_string()));

    let e = env("linux");
    assert_eq!(
        resolve_cli(&path("/data"), &[], &cli, &e, &probe, &no_path, &link).unwrap_err(),
        "This build has no bundled Node, and Node.js 22.19+ is not on PATH. Use a packaged installer or install Node."
    );
    let which = |name: &str| if name == "node" { Some(path("/usr/bin/node")) } else { None };
    assert_eq!(
        resolve_cli(&path("/data"), &[], &cli, &e, &probe, &which, &link).unwrap_err(),
        "managed @deepseek-ai/dsh is not installed yet"
    );
    assert!(needs_managed_install(&path("/data"), &[], &e, &probe));
}

#[test]
fn resolve_managed_prefix_for_web() {
    let disk = Disk::new(&["/data/dsh-runtime/node_modules/@deepseek-ai/dsh/lib/bin.js"], &[]);
    let probe = |p: &NativePath| disk.kind(p);
    let link = |_: &NativePath, _: &NativePath| {};
    let which = |name: &str| if name == "node" { Some(path("/usr/bin/node")) } else { None };
    let e = env("linux");
    assert!(!needs_managed_install(&path("/data"), &[], &e, &probe));
    let config = DshConfig { host: "127.0.0.1".into(), port: 4000, ..DshConfig::default() };
    let plan: LaunchPlan = resolve_launch(&path("/data"), &[], &config, &e, &probe, &which, &link).unwrap();
    assert_eq!(plan.program.text(), "/usr/bin/node");
    assert_eq!(
        plan.args,
        vec![
            "/data/dsh-runtime/node_modules/@deepseek-ai/dsh/lib/bin.js".to_string(),
            "web".to_string(),
            "--host".to_string(),
            "127.0.0.1".to_string(),
            "--port".to_string(),
            "4000".to_string(),
        ]
    );
    assert_eq!(plan.cwd.map(|p| p.text()), Some("/data/dsh-runtime".to_string()));
}

#[test]
fn rooted_package_names_replace_the_profile_path() {
    let disk = Disk::new(&["/abs/pkg/package.json"], &[]);
    let probe = |p: &NativePath| disk.kind(p);
    assert!(plugin_installed_on_disk(&path("/data"), "/abs/pkg", &probe));
    assert!(!plugin_installed_on_disk(&path("/data"), "abs/pkg", &probe));
}

#[test]
fn managed_version_reads_the_manifest() {
    let read = |p: &NativePath| {
        if p.text() == "/data/dsh-runtime/node_modules/@deepseek-ai/dsh/package.json" {
            Some("{\"name\":\"@deepseek-ai/dsh\",\"version\":\"0.1.0-rc.7\"}".to_string())
        } else {
            None
        }
    };
    assert_eq!(managed_version(&path("/data/dsh-runtime"), &read).as_deref(), Some("0.1.0-rc.7"));
    assert!(managed_version(&path("/elsewhere"), &read).is_none());
    let broken = |_: &NativePath| Some("{\"version\": 3}".to_string());
    assert!(managed_version(&path("/data"), &broken).is_none());
    let garbage = |_: &NativePath| Some("not json".to_string());
    assert!(managed_version(&path("/data"), &garbage).is_none());
}

#[test]
fn npm_prefix_is_five_levels_above_the_entry_script() {
    assert_eq!(
        npm_prefix_from_bin(&path("/r/runtime/dsh/node_modules/@deepseek-ai/dsh/lib/bin.js")).map(|p| p.text()),
        Some("/r/runtime/dsh".to_string())
    );
    assert!(npm_prefix_from_bin(&path("/a/b")).is_none());
    assert!(npm_prefix_from_bin(&path("/a/b/c/d/e")).is_some());
    let prefix = path("/data/dsh-runtime");
    assert_eq!(npm_prefix_from_bin(&dsh_bin_under(&prefix)).map(|p| p.text()), Some(prefix.text()));
}

fn plan_text(plan: &LaunchPlan) -> (String, Vec<String>, Option<String>, Vec<(String, String)>) {
    (plan.program.text(), plan.args.clone(), plan.cwd.as_ref().map(|p| p.text()), plan.env.clone())
}

#[test]
fn resolve_launch_is_resolve_cli_on_the_web_command() {
    let disk = Disk::new(
        &[
            "/res/runtime/node/node",
            "/res/runtime/dsh/node_modules/@deepseek-ai/dsh/lib/bin.js",
            "/res/hooks/resolve-register.mjs",
            "/data/dsh-runtime/node_modules/@deepseek-ai/dsh/lib/bin.js",
        ],
        &[],
    );
    let probe = |p: &NativePath| disk.kind(p);
    let link = |_: &NativePath, _: &NativePath| {};
    let which = |name: &str| if name == "node" { Some(path("/usr/bin/node")) } else { None };
    let config = DshConfig { host: " 0.0.0.1".into(), port: 4000, ..DshConfig::default() };
    let cli: Vec<String> =
        vec!["web".into(), "--host".into(), " 0.0.0.1".into(), "--port".into(), "4000".into()];
    for hints in [vec![], vec![path("/res")]] {
        let e = env("linux");
        let launched = resolve_launch(&path("/data"), &hints, &config, &e, &probe, &which, &link);
        let direct = resolve_cli(&path("/data"), &hints, &cli, &e, &probe, &which, &link);
        assert_eq!(launched.map(|p| plan_text(&p)), direct.map(|p| plan_text(&p)));
    }
    let empty = Disk::new(&[], &[]);
    let probe = |p: &NativePath| empty.kind(p);
    let e = env("linux");
    assert_eq!(
        resolve_launch(&path("/data"), &[], &config, &e, &probe, &which, &link).unwrap_err(),
        resolve_cli(&path("/data"), &[], &cli, &e, &probe, &which, &link).unwrap_err()
    );
}

#[test]
fn needs_managed_install_is_nothing_else_found() {
    let layouts: Vec<(Vec<&str>, Vec<&str>)> = vec![
        (vec![], vec![]),
        (vec!["/data/dsh-runtime/node_modules/@deepseek-ai/dsh/lib/bin.js"], vec![]),
        (
            vec!["/res/runtime/node/node", "/res/runtime/dsh/node_modules/@deepseek-ai/dsh/lib/bin.js"],
            vec![],
        ),
        (vec!["/src/pnpm-workspace.yaml"], vec!["/src/apps/cli"]),
        (vec!["/src/pnpm-workspace.yaml"], vec![]),
    ];
    for (files, dirs) in layouts {
        let disk = Disk::new(&files, &dirs);
        let probe = |p: &NativePath| disk.kind(p);
        for checkout in [None, Some(path("/src"))] {
            for desktop_bin in [None, Some(path("/opt/dsh"))] {
                let e = LaunchEnv {
                    os: "linux".into(),
                    desktop_bin: desktop_bin.clone(),
                    checkout: checkout.clone(),
                    node: None,
                };
                let hints = vec![path("/res")];
                let expected = desktop_bin.is_none()
                    && find_checkout(checkout.clone(), &probe).is_none()
                    && find_bundled_runtime(&hints, "linux", &probe).is_none()
                    && managed_bin(&runtime_prefix(&path("/data")), &probe).is_none();
                assert_eq!(needs_managed_install(&path("/data"), &hints, &e, &probe), expected);
            }
        }
    }
}
