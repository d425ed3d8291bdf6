use butterfly::error::Error;
use butterfly::service_group::ServiceGroup;

#[test]
fn fmt_without_organization() {
    let sg = ServiceGroup::new("kayla", "album", None);
    assert_eq!(&sg.as_string(), "kayla.album");

    let sg = ServiceGroup::new("blue-ocean", "album-track", None);
    assert_eq!(&sg.as_string(), "blue-ocean.album-track");
}

#[test]
fn fmt_with_organization() {
    let sg = ServiceGroup::new("kayla", "album", Some("flying_colors".to_string()));
    assert_eq!(&sg.as_string(), "kayla.album@flying_colors");

    let sg = ServiceGroup::new("blue-ocean", "album-track", Some("f-l_y".to_string()));
    assert_eq!(&sg.as_string(), "blue-ocean.album-track@f-l_y");
}

#[test]
fn from_str_without_organization() {
    let expected = ServiceGroup::new("kayla", "album", None);
    let actual = ServiceGroup::from_str("kayla.album").unwrap();
    assert_eq!(expected, actual);

    let expected = ServiceGroup::new("blue-ocean", "track-from_album", None);
    let actual = ServiceGroup::from_str("blue-ocean.track-from_album").unwrap();
    assert_eq!(expected, actual);
}

#[test]
fn from_str_with_organization() {
    let expected = ServiceGroup::new("kayla", "album", Some("flying_colors".to_string()));
    let actual = ServiceGroup::from_str("kayla.album@flying_colors").unwrap();
    assert_eq!(expected, actual);

    let expected = ServiceGroup::new("blue-ocean", "track-from_album", Some("f-l_y".to_string()));
    let actual = ServiceGroup::from_str("blue-ocean.track-from_album@f-l_y").unwrap();
    assert_eq!(expected, actual);
}

#[test]
#[should_panic(expected = "not.allowed@")]
fn from_str_ending_with_at() {
    ServiceGroup::from_str("not.allowed@").unwrap();
}

#[test]
#[should_panic(expected = "only.one.period@allowed")]
fn from_str_too_many_periods() {
    ServiceGroup::from_str("only.one.period@allowed").unwrap();
}

#[test]
#[should_panic(expected = "oh-noes")]
fn from_str_not_enough_periods() {
    ServiceGroup::from_str("oh-noes").unwrap();
}

#[test]
fn service_groups_with_org() {
    let x = ServiceGroup::from_str("foo.bar").unwrap();
    assert!(x.service == "foo".to_string());
    assert!(x.group == "bar".to_string());
    assert!(x.organization.is_none());

    let y = ServiceGroup::from_str("foo.bar@baz").unwrap();
    assert!(y.service == "foo".to_string());
    assert!(y.group == "bar".to_string());
    assert!(y.organization.unwrap() == "baz");

    assert!(ServiceGroup::from_str("foo.bar@").is_err());
    assert!(ServiceGroup::from_str("f.oo.bar@baz").is_err());
    assert!(ServiceGroup::from_str("foo@baz").is_err());
}

#[test]
fn org_or_empty() {
    assert!("" == ServiceGroup::from_str("foo.bar").unwrap().dotted_org_or_empty());
    assert!(".baz" == ServiceGroup::from_str("foo.bar@baz").unwrap().dotted_org_or_empty());
}

#[test]
fn parse_names_all_three_parts() {
    let sg = ServiceGroup::from_str("kayla.album@flying_colors").unwrap();
    assert_eq!(sg.service, "kayla");
    assert_eq!(sg.group, "album");
    assert_eq!(sg.organization, Some("flying_colors".to_string()));
    assert!(ServiceGroup::from_str("foo.bar@").is_err());
    assert!(ServiceGroup::from_str("foo").is_err());
}

#[test]
fn rejected_text_comes_back_in_the_error() {
    assert_eq!(
        ServiceGroup::from_str("foo"),
        Err(Error::InvalidServiceGroup("foo".to_string()))
    );
    assert_eq!(ServiceGroup::from_str(""), Err(Error::InvalidServiceGroup(String::new())));
}

#[test]
fn organization_may_hold_periods_and_at_signs() {
    let sg = ServiceGroup::from_str("a.b@c.d@e").unwrap();
    assert_eq!(sg.service, "a");
    assert_eq!(sg.group, "b");
    assert_eq!(sg.organization, Some("c.d@e".to_string()));
    assert_eq!(sg.as_string(), "a.b@c.d@e");
}

#[test]
fn organization_may_not_hold_a_line_feed() {
    assert!(ServiceGroup::from_str("a.b@c\nd").is_err());
    assert!(ServiceGroup::from_str("a.b@\n").is_err());
    assert!(ServiceGroup::from_str("a\nb.c\nd").is_ok());
}

#[test]
fn text_form_reads_back() {
    let groups = [
        ServiceGroup::new("redis", "default", None),
        ServiceGroup::new("red-is", "de_fault", Some("acme.co".to_string())),
        ServiceGroup::new("r", "g", Some("@".to_string())),
        ServiceGroup::new("\u{e9}t\u{e9}", "na\u{ef}ve", Some("\u{fc}ber".to_string())),
    ];
    for sg in groups.iter() {
        assert_eq!(&ServiceGroup::from_str(&sg.as_string()).unwrap(), sg);
    }
}

#[test]
fn parser_agrees_with_the_pattern() {
    let pattern =
        regex::Regex::new(r"\A(?P<service>[^.]+)\.(?P<group>[^.@]+)(@(?P<organization>.+))?\z")
            .unwrap();
    let pieces = ["", "a", "bc", ".", "@", "\n", "-", "_", "\u{e9}", "x.y", "@@", ".."];
    let mut texts: Vec<String> = Vec::new();
    for a in pieces.iter() {
        for b in pieces.iter() {
            for c in pieces.iter() {
                for d in pieces.iter() {
                    texts.push(format!("{}{}{}{}", a, b, c, d));
                }
            }
        }
    }
    let mut accepted = 0;
    for text in texts.iter() {
        let parsed = ServiceGroup::from_str(text);
        match pattern.captures(text) {
            Some(caps) => {
                let sg = parsed.unwrap();
                assert_eq!(sg.service, caps.name("service").unwrap().as_str());
                assert_eq!(sg.group, caps.name("group").unwrap().as_str());
                assert_eq!(
                    sg.organization,
                    caps.name("organization").map(|m| m.as_str().to_string())
                );
                assert_eq!(&sg.as_string(), text);
                accepted += 1;
            }
            None => {
                assert_eq!(parsed, Err(Error::InvalidServiceGroup(text.clone())));
            }
        }
    }
    assert!(accepted > 100);
}

#[test]
fn text_is_parsed_through_the_standard_trait() {
    let parsed: Result<ServiceGroup, Error> = "redis.default@acme".parse();
    assert_eq!(parsed, Ok(ServiceGroup::new("redis", "default", Some("acme".to_string()))));
    let refused: Result<ServiceGroup, Error> = "redis".parse();
    assert_eq!(refused, Err(Error::InvalidServiceGroup("redis".to_string())));
}
