use rssg::init::{generate_navbar_list, sanitise_string};
#[test]
fn test_sanitise_string() {
    assert_eq!(sanitise_string("My Page "), "my_page");
    assert_eq!(sanitise_string("  Another Page"), "another_page");
    assert_eq!(sanitise_string("Already_good"), "already_good");
}

#[test]
fn test_generate_navbar_list() {
    let input = "Home, About, Contact";
    let expected = "<li class=\"navbar__link\"><a href=\"/home\">Home</a></li>\n\
                    <li class=\"navbar__link\"><a href=\"/about\">About</a></li>\n\
                    <li class=\"navbar__link\"><a href=\"/contact\">Contact</a></li>";
    assert_eq!(generate_navbar_list(input), expected);
}
