use imark::{get_endpoint, Args};

fn args(endpoint: Option<&str>, course: &str, session: &str) -> Args {
    Args {
        endpoint: endpoint.map(|e| e.to_string()),
        scheme: "scheme.txt".to_string(),
        course: course.to_string(),
        session: session.to_string(),
    }
}

#[test]
fn the_endpoint_is_derived_from_course_and_session() {
    assert_eq!(
        get_endpoint(&args(None, "cs1511", "24T1")),
        "https://cgi.cse.unsw.edu.au/~cs1511/24T1/imark/server.cgi/"
    );
}

#[test]
fn an_explicit_endpoint_overrides_course_and_session() {
    assert_eq!(
        get_endpoint(&args(Some("http://localhost:8080/mark/"), "cs1511", "24T1")),
        "http://localhost:8080/mark/"
    );
}

#[test]
fn an_empty_explicit_endpoint_is_still_the_endpoint() {
    assert_eq!(get_endpoint(&args(Some(""), "cs1511", "24T1")), "");
}

#[test]
fn empty_course_and_session_leave_the_frame_of_the_endpoint() {
    assert_eq!(get_endpoint(&args(None, "", "")), "https://cgi.cse.unsw.edu.au/~//imark/server.cgi/");
}
