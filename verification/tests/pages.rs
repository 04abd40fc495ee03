use notes_engine::handlers::{folder_view, goes_to_admin, render_markdown, route_for, route_for_extension, FolderView, Route};
use notes_engine::logins::{Login, Logins};
use notes_engine::templates::{Admin, Base, Dir};
use notes_engine::user::User;
use notes_engine::sessions::{Session, Sessions, User as SessionUser};

fn segs(v: &[&str]) -> Vec<String> {
    v.iter().map(|s| s.to_string()).collect()
}

#[test]
fn dispatch_by_first_segment() {
    let admin = "admin".to_string();
    assert!(goes_to_admin(&segs(&["admin", "login"]), &admin));
    assert!(goes_to_admin(&segs(&["admin"]), &admin));
    assert!(!goes_to_admin(&segs(&["notes", "admin"]), &admin));
    assert!(!goes_to_admin(&segs(&["administrator"]), &admin));
    assert!(!goes_to_admin(&vec![], &admin));
}

#[test]
fn routes_by_extension() {
    assert_eq!(route_for("notes/a.md"), Route::Markdown);
    assert_eq!(route_for("a.txt"), Route::Code);
    assert_eq!(route_for("notes/sub"), Route::Folder);
    assert_eq!(route_for("notes/sub/"), Route::Folder);
    assert_eq!(route_for(""), Route::Folder);
    assert_eq!(route_for(".hidden"), Route::Folder);
    assert_eq!(route_for("img/a.png"), Route::Raw);
    assert_eq!(route_for("a.tar.md"), Route::Markdown);
    assert_eq!(route_for("file."), Route::Raw);
    assert_eq!(route_for_extension(Some("md".to_string())), Route::Markdown);
    assert_eq!(route_for_extension(Some("MD".to_string())), Route::Raw);
    assert_eq!(route_for_extension(None), Route::Folder);
}

#[test]
fn folder_shows_its_index_first() {
    assert_eq!(folder_view(true, true), FolderView::IndexMarkdown);
    assert_eq!(folder_view(false, true), FolderView::IndexHtml);
    assert_eq!(folder_view(false, false), FolderView::Listing);
}

#[test]
fn markdown_is_rendered() {
    assert_eq!(render_markdown(b"# Title\n").unwrap(), "<h1>Title</h1>\n");
    assert_eq!(render_markdown(b"a *b*\n").unwrap(), "<p>a <em>b</em></p>\n");
    let table = render_markdown(b"| a | b |\n|---|---|\n| 1 | 2 |\n").unwrap();
    assert!(table.contains("<table>"));
    let fenced = render_markdown(b"```\ncode\n```\n").unwrap();
    assert!(fenced.contains("<pre><code>code"));
    // with space headers, a hash without a space is no header
    assert_eq!(render_markdown(b"#Title\n").unwrap(), "<p>#Title</p>\n");
}

#[test]
fn folder_children_are_the_paths_below() {
    let base = Base {
        user: Some("bob".to_string()),
        is_admin: false,
        page: Dir { children: vec![] },
        current: "notes".to_string(),
        accessible: segs(&["a.md", "notes/x.md", "notes/sub/y.md", "other/notes.md"]),
    };
    let dir = Dir::from_base(base);
    assert_eq!(
        dir.page.children,
        vec![
            ("/x.md".to_string(), "notes/x.md".to_string()),
            ("/sub/y.md".to_string(), "notes/sub/y.md".to_string())
        ]
    );
    assert_eq!(dir.current, "notes");
    assert_eq!(dir.user, Some("bob".to_string()));
    assert_eq!(dir.accessible.len(), 4);
}

#[test]
fn page_frame_from_its_parts() {
    let logins = Logins::from_records(vec![
        Login { name: "root".to_string(), admin: true, hashword: "h".to_string() },
        Login { name: "bob".to_string(), admin: false, hashword: "h".to_string() },
    ]);
    let found = vec![segs(&["b.md"]), segs(&["a", "x.md"]), segs(&["b.md"])];
    let base = Base::from_parts(Some("root".to_string()), &logins, 7u8, &segs(&["a", "x.md"]), Some(found));
    assert!(base.is_admin);
    assert_eq!(base.page, 7);
    assert_eq!(base.current, "a/x.md");
    assert_eq!(base.accessible, segs(&["a/x.md", "b.md"]));
    let anon = Base::from_parts(None, &logins, (), &vec![], None);
    assert!(!anon.is_admin);
    assert_eq!(anon.current, "");
    assert!(anon.accessible.is_empty());
    let bob = Base::from_parts(Some("bob".to_string()), &logins, (), &vec![], None);
    assert!(!bob.is_admin);
}

#[test]
fn admin_page_lists_users() {
    let page = Admin::from_logins(vec![
        Login { name: "root".to_string(), admin: true, hashword: "h".to_string() },
        Login { name: "bob".to_string(), admin: false, hashword: "h".to_string() },
    ]);
    assert_eq!(page.users, vec![("root".to_string(), true), ("bob".to_string(), false)]);
}

#[test]
fn session_user_round_trip() {
    assert_eq!(User::get_key(), "user");
    let raw = User { username: "bob".to_string() }.into_raw();
    assert_eq!(raw, "bob");
    assert_eq!(User::from_raw(raw).unwrap().username, "bob");
    assert!(User::from_raw(String::new()).is_none());
}

#[test]
fn sessions_by_token() {
    let mut s = Sessions {
        sessions: vec![
            Session { user: None, token: "t1".to_string() },
            Session { user: Some(SessionUser { id: 3, name: "bob".to_string() }), token: "t2".to_string() },
            Session { user: None, token: "t2".to_string() },
        ],
    };
    let found = s.get_session("t2".to_string()).unwrap();
    assert_eq!(found.get_token(), "t2");
    assert_eq!(found.user.unwrap().name, "bob");
    assert!(s.get_session("t3".to_string()).is_none());
    let fresh = s.create_session();
    assert!(fresh.user.is_none());
    assert_eq!(fresh.token, "asdf");
    assert_eq!(s.sessions.len(), 3);
    s.clear_all_sessions();
    assert!(s.sessions.is_empty());
    assert!(s.get_session("t1".to_string()).is_none());
}
