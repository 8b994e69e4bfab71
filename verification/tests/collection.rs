use packetsmith::collection::{
    resolve_breadcrumbs, CrumbKind, FolderInfo, NamedResource, RequestInfo, copy_name, move_plan,
    order_without, FolderMove,
    candidate_slug, classify_entry, enter_subdir, quick_open, quick_open_score, resource_file_name,
    resource_parent, scan_step, ManifestKind, QuickOpenCandidate, ResourceParent, ScanAction, ScanEntry,
    ScanPhase, ScanState,
};
use packetsmith::domain::ResourceId;

#[test]
fn entries_are_classified_by_name_and_kind() {
    assert_eq!(classify_entry("github.col.yaml", false), ScanEntry::CollectionFile);
    assert_eq!(classify_entry("repos.folder.yaml", false), ScanEntry::FolderFile);
    assert_eq!(classify_entry("list-repos.req.yaml", false), ScanEntry::RequestFile);
    assert_eq!(classify_entry("ok.example.yaml", false), ScanEntry::ExampleFile);
    assert_eq!(classify_entry("notes.txt", false), ScanEntry::OtherFile);
    assert_eq!(classify_entry("list-repos.examples", true), ScanEntry::ExamplesDir);
    assert_eq!(classify_entry(".git", true), ScanEntry::HiddenDir);
    assert_eq!(classify_entry("orders", true), ScanEntry::Subdir);
    assert_eq!(classify_entry("orders.col.yaml", true), ScanEntry::Subdir);
}

#[test]
fn resource_files_are_named_by_slug() {
    assert_eq!(resource_file_name("E-Commerce API", ".col.yaml"), "e-commerce-api.col.yaml");
    assert_eq!(resource_file_name("Get Order By ID", ".req.yaml"), "get-order-by-id.req.yaml");
    assert_eq!(resource_file_name("!!!", ".req.yaml"), "resource.req.yaml");
    assert_eq!(candidate_slug("login", 0), "login");
    assert_eq!(candidate_slug("login", 2), "login-2");
}

#[test]
fn requests_attach_to_folder_then_collection() {
    let c = ResourceId(1);
    let f = ResourceId(2);
    assert_eq!(resource_parent(Some(c), Some(f)), Some(ResourceParent::Folder(f)));
    assert_eq!(resource_parent(Some(c), None), Some(ResourceParent::Collection(c)));
    assert_eq!(resource_parent(None, None), None);
}

#[test]
fn scan_reads_files_first_then_enters_subdirectories() {
    let root = ScanState::root();
    assert_eq!(scan_step(root, ScanEntry::Subdir), ScanAction::Defer);
    assert_eq!(scan_step(root, ScanEntry::RequestFile), ScanAction::IndexRequest(None));
    assert_eq!(scan_step(root, ScanEntry::OtherFile), ScanAction::Skip);
    let second = root.subdirs();
    assert_eq!(second.phase, ScanPhase::Subdirs);
    assert_eq!(scan_step(second, ScanEntry::Subdir), ScanAction::FindManifest(ManifestKind::Collection));
    assert_eq!(scan_step(second, ScanEntry::HiddenDir), ScanAction::Skip);
    assert_eq!(scan_step(second, ScanEntry::ExamplesDir), ScanAction::ScanExamples);

    let col = enter_subdir(second, Some(ResourceId(7)));
    assert_eq!(col.collection, Some(ResourceId(7)));
    assert_eq!(col.folder, None);
    assert_eq!(scan_step(col, ScanEntry::RequestFile), ScanAction::IndexRequest(Some(ResourceParent::Collection(ResourceId(7)))));
    assert_eq!(scan_step(col.subdirs(), ScanEntry::Subdir), ScanAction::FindManifest(ManifestKind::Folder));

    let folder = enter_subdir(col.subdirs(), Some(ResourceId(9)));
    assert_eq!(folder.collection, Some(ResourceId(7)));
    assert_eq!(scan_step(folder, ScanEntry::RequestFile), ScanAction::IndexRequest(Some(ResourceParent::Folder(ResourceId(9)))));
    let bare = enter_subdir(folder.subdirs(), None);
    assert_eq!(scan_step(bare, ScanEntry::RequestFile), ScanAction::IndexRequest(Some(ResourceParent::Collection(ResourceId(7)))));
}

fn cand(name: &str, url: Option<&str>) -> QuickOpenCandidate {
    QuickOpenCandidate { name: name.to_string(), url: url.map(|u| u.to_string()) }
}

#[test]
fn quick_open_ranks_by_score_then_name() {
    let c = vec![
        cand("List Repos", Some("https://api.github.com/user/repos")),
        cand("Create Repo", Some("https://api.github.com/user/repos")),
        cand("Get User", Some("https://api.github.com/user")),
        cand("repos archive", None),
        cand("Ping", None),
    ];
    assert_eq!(quick_open_score("List Repos", &Some("https://api.github.com/user/repos".into()), "repo"), 80);
    assert_eq!(quick_open_score("repos archive", &None, "REPO"), 100);
    assert_eq!(quick_open(&c, "repo", 10), vec![3, 1, 0]);
    assert_eq!(quick_open(&c, "repo", 2), vec![3, 1]);
    assert_eq!(quick_open(&c, "user", 10), vec![2, 1, 0]);
    assert!(quick_open(&c, "   ", 10).is_empty());
    assert!(quick_open(&c, "zzz", 10).is_empty());
}

#[test]
fn breadcrumbs_run_from_collection_to_resource() {
    let col = ResourceId(1);
    let repos = ResourceId(2);
    let forks = ResourceId(3);
    let req = ResourceId(4);
    let top_req = ResourceId(5);
    let collections = vec![NamedResource { id: col, name: "Github API".into() }];
    let folders = vec![
        FolderInfo { id: forks, name: "Forks".into(), parent: Some(repos), collection: col },
        FolderInfo { id: repos, name: "Repositories".into(), parent: None, collection: col },
    ];
    let requests = vec![
        RequestInfo { id: req, name: "List Forks".into(), parent: Some(ResourceParent::Folder(forks)) },
        RequestInfo { id: top_req, name: "Rate Limit".into(), parent: Some(ResourceParent::Collection(col)) },
    ];
    let names = |t| {
        resolve_breadcrumbs(&collections, &folders, &requests, t)
            .into_iter()
            .map(|c| c.name)
            .collect::<Vec<_>>()
    };
    assert_eq!(names(req), vec!["Github API", "Repositories", "Forks", "List Forks"]);
    assert_eq!(names(forks), vec!["Github API", "Repositories", "Forks"]);
    assert_eq!(names(col), vec!["Github API"]);
    assert_eq!(names(top_req), vec!["Github API", "Rate Limit"]);
    assert!(names(ResourceId(99)).is_empty());
    let crumbs = resolve_breadcrumbs(&collections, &folders, &requests, req);
    assert_eq!(crumbs[0].kind, CrumbKind::Collection);
    assert_eq!(crumbs[2].kind, CrumbKind::Folder);
    assert_eq!(crumbs[3].kind, CrumbKind::Request);
}

#[test]
fn duplicates_are_named_as_copies() {
    assert_eq!(copy_name("Login Request"), "Login Request (Copy)");
    assert_eq!(copy_name(""), " (Copy)");
}

#[test]
fn taking_an_item_out_of_an_order_keeps_the_rest() {
    let order = vec![ResourceId(1), ResourceId(2), ResourceId(1), ResourceId(3)];
    assert_eq!(order_without(&order, ResourceId(1)), vec![ResourceId(2), ResourceId(3)]);
    assert_eq!(order_without(&order, ResourceId(9)), order);
}

#[test]
fn moves_refuse_folder_cycles() {
    let col = ResourceId(1);
    let other = ResourceId(9);
    let a = ResourceId(2);
    let b = ResourceId(3);
    // b sits inside a.
    let links = vec![(a, None), (b, Some(a))];
    // A request is never refused.
    let (place, ok) = move_plan(&links, None, ResourceId(7), ResourceParent::Folder(a));
    assert_eq!(place, None);
    assert!(ok.is_ok());
    // A folder into itself.
    let (place, res) = move_plan(&links, Some(col), a, ResourceParent::Folder(a));
    assert_eq!(place, None);
    assert!(matches!(res, Err(packetsmith::workspace::WorkspaceError::CircularHierarchy(x)) if x == a));
    // A folder into its own child.
    let (place, res) = move_plan(&links, Some(col), a, ResourceParent::Folder(b));
    assert_eq!(place, Some(FolderMove { parent: Some(b), collection: col }));
    assert!(res.is_err());
    // A folder to another collection.
    let (place, res) = move_plan(&links, Some(col), b, ResourceParent::Collection(other));
    assert_eq!(place, Some(FolderMove { parent: None, collection: other }));
    assert!(res.is_ok());
}
