use issuetrack::api;
use issuetrack::models::Issue;
use issuetrack::models::NewProject;
use issuetrack::models::NewUser;
use issuetrack::models::Project;

#[test]
fn new_project_keeps_its_fields() {
    let p = NewProject::new(String::from("tracker"), String::from("The Tracker"));
    assert_eq!(p.slug, "tracker");
    assert_eq!(p.name, "The Tracker");
}

#[test]
fn new_user_lowercases_the_username() {
    let u = NewUser::new(String::from("AliCE"), String::from("pw"), 1000, 16)
        .expect("entropy source available");
    assert_eq!(u.username, "alice");
    assert_eq!(u.iterations, 1000);
    assert_eq!(u.salt.len(), 16);
}

#[test]
fn new_user_stores_the_derived_key_not_the_password() {
    let u = NewUser::new(String::from("bob"), String::from("pw"), 1000, 16)
        .expect("entropy source available");
    let again = issuetrack::credential::derive_with_salt("pw", u.salt.clone(), u.iterations);
    assert_eq!(u.credential, again.derived_key);
    assert_ne!(u.credential, b"pw".to_vec());
}

#[test]
fn issue_shape_names_the_project_by_slug() {
    let project = Project { id: 7, slug: String::from("tracker"), name: String::from("Tracker") };
    let issue = Issue {
        id: 3,
        project_id: 7,
        issue_type: 1,
        created_at: 0,
        created_by_user_id: 2,
        status_id: 1,
        category_id: None,
        title: String::from("a bug"),
        description: String::from("it breaks"),
    };
    let shaped = api::Issue::from_model(&project, &issue);
    assert_eq!(shaped.id, 3);
    assert_eq!(shaped.project_id, "tracker");
    assert_eq!(shaped.title, "a bug");
    assert_eq!(shaped.description, "it breaks");
}

#[test]
fn exposed_project_and_user_keep_their_model() {
    let p = api::Project::new(Project {
        id: 1,
        slug: String::from("alpha"),
        name: String::from("Alpha"),
    });
    assert_eq!(p.id(), "alpha");

    let u = api::User::new(issuetrack::models::User {
        id: 9,
        username: String::from("carol"),
        iterations: 1,
        salt: vec![0u8; 16],
        credential: vec![0u8; 32],
    });
    assert_eq!(u.id(), 9);
    assert_eq!(u.username(), "carol");
}
