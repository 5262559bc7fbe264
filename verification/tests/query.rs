use json_api::query::{self, Direction, Page, Query};
use json_api::value::Value;
use json_api::Error;

fn from_mapping() -> Vec<(String, Query)> {
    vec![
        (String::from(""), Query::default()),
        (
            String::from("fields%5Barticles%5D=title"),
            Query::builder().fields("articles", &["title"]).build().unwrap(),
        ),
        (
            [
                "fields%5Barticles%5D=body%2Ctitle%2Cpublished-at&",
                "fields%5Bcomments%5D=body&",
                "fields%5Busers%5D=name",
            ]
            .concat(),
            Query::builder()
                .fields("articles", &["body", "title", "published-at"])
                .fields("comments", &["body"])
                .fields("users", &["name"])
                .build()
                .unwrap(),
        ),
        (
            String::from("filter%5Busers.name%5D=Alfred+Pennyworth"),
            Query::builder()
                .filter("users.name", Value::String(String::from("Alfred Pennyworth")))
                .build()
                .unwrap(),
        ),
        (
            String::from("include=author"),
            Query::builder().includes("author").build().unwrap(),
        ),
        (
            String::from("include=author%2Ccomments%2Ccomments.author"),
            Query::builder()
                .includes("author")
                .includes("comments")
                .includes("comments.author")
                .build()
                .unwrap(),
        ),
        (
            String::from("page%5Bnumber%5D=0"),
            Query::builder().page(1, None).build().unwrap(),
        ),
        (
            String::from("page%5Bnumber%5D=1"),
            Query::builder().page(1, None).build().unwrap(),
        ),
        (
            String::from("page%5Bsize%5D=10"),
            Query::builder().page(1, Some(10)).build().unwrap(),
        ),
        (
            String::from("page%5Bnumber%5D=2&page%5Bsize%5D=15"),
            Query::builder().page(2, Some(15)).build().unwrap(),
        ),
        (
            String::from("sort=-published-at"),
            Query::builder().sort("published-at", Direction::Desc).build().unwrap(),
        ),
        (
            String::from("sort=published-at%2C-title"),
            Query::builder()
                .sort("published-at", Direction::Asc)
                .sort("title", Direction::Desc)
                .build()
                .unwrap(),
        ),
        (
            String::from("sort=published-at%2C-title%2C-author.name"),
            Query::builder()
                .sort("published-at", Direction::Asc)
                .sort("title", Direction::Desc)
                .sort("author.name", Direction::Desc)
                .build()
                .unwrap(),
        ),
        (
            [
                "fields%5Barticles%5D=body%2Ctitle%2Cpublished-at&",
                "fields%5Bcomments%5D=body&",
                "fields%5Busers%5D=name&",
                "filter%5Busers.name%5D=Alfred+Pennyworth&",
                "include=author%2Ccomments%2Ccomments.author&",
                "page%5Bnumber%5D=2&page%5Bsize%5D=15&",
                "sort=published-at%2C-title%2C-author.name",
            ]
            .concat(),
            Query::builder()
                .fields("articles", &["body", "title", "published-at"])
                .fields("comments", &["body"])
                .fields("users", &["name"])
                .filter("users.name", Value::String(String::from("Alfred Pennyworth")))
                .includes("author")
                .includes("comments")
                .includes("comments.author")
                .page(2, Some(15))
                .sort("published-at", Direction::Asc)
                .sort("title", Direction::Desc)
                .sort("author.name", Direction::Desc)
                .build()
                .unwrap(),
        ),
    ]
}

fn to_mapping() -> Vec<(String, Query)> {
    from_mapping()
        .into_iter()
        .map(|(key, value)| match key.as_str() {
            "page%5Bnumber%5D=0" | "page%5Bnumber%5D=1" => (String::new(), value),
            _ => (key, value),
        })
        .collect()
}

#[test]
fn query_from_slice() {
    for (source, expected) in from_mapping() {
        let actual = query::from_slice(source.as_bytes()).unwrap();
        assert_eq!(actual, expected);
    }
}

#[test]
fn query_from_str() {
    for (source, expected) in from_mapping() {
        let actual = query::from_str(&source).unwrap();
        assert_eq!(actual, expected);
    }
}

#[test]
fn query_to_string() {
    for (expected, source) in to_mapping() {
        let actual = query::to_string(&source).unwrap();
        assert_eq!(actual, expected);
    }
}

#[test]
fn query_to_vec() {
    for (expected, source) in to_mapping() {
        let actual = query::to_vec(&source).unwrap();
        assert_eq!(actual, expected.to_owned().into_bytes());
    }
}

#[test]
fn query_decode_sparse_fieldset() {
    let actual = query::from_str("fields%5Barticles%5D=title").unwrap();
    let expected = Query::builder().fields("articles", &["title"]).build().unwrap();
    assert_eq!(actual, expected);
    assert_eq!(actual.fields.len(), 1);
    assert_eq!(actual.fields.key_at(0).as_str(), "articles");
    assert_eq!(actual.fields.value_at(0).len(), 1);
    assert_eq!(actual.fields.value_at(0).item_at(0).as_str(), "title");
    assert!(actual.filter.is_empty());
    assert!(actual.includes.is_empty());
    assert!(actual.sort.is_empty());
    assert_eq!(actual.page, None);
}

#[test]
fn query_decode_sort_keeps_order() {
    let actual = query::from_str("sort=published-at,-title").unwrap();
    assert_eq!(actual.sort.len(), 2);
    assert_eq!(actual.sort.item_at(0).field.to_string(), "published-at");
    assert_eq!(actual.sort.item_at(0).direction, Direction::Asc);
    assert_eq!(actual.sort.item_at(1).field.to_string(), "title");
    assert_eq!(actual.sort.item_at(1).direction, Direction::Desc);
}

#[test]
fn query_decode_normalizes_page_number_zero() {
    let actual = query::from_str("page%5Bnumber%5D=0").unwrap();
    assert_eq!(actual.page, Some(Page::new(1, None)));
    assert_eq!(query::to_string(&actual).unwrap(), "");
}

#[test]
fn query_decode_rejects_unknown_parameter() {
    assert!(query::from_str("paage%5Bnumber%5D=1").is_err());
    assert!(query::from_str("fields%5Bbad name!%5D=title").is_err());
    assert!(query::from_str("page%5Bnumber%5D=two").is_err());
}

#[test]
fn query_decode_rejects_invalid_text() {
    // A percent escape that decodes to invalid UTF-8 fails the decode.
    assert!(query::from_slice(b"filter%5Ba%5D=%FF").is_err());
}

#[test]
fn query_decode_resolves_escapes_twice() {
    // Escapes are resolved once for the whole string and once more per
    // component, so a doubly escaped comma reaches the value as a comma,
    // and `+` means a space only in the second pass.
    let q = query::from_str("filter%5Ba%5D=x%252Cy").unwrap();
    let path = json_api::value::Path::from_str("a").unwrap();
    assert_eq!(q.filter.get(&path), Some(&Value::String(String::from("x,y"))));

    let q = query::from_str("filter%5Ba%5D=1+2").unwrap();
    assert_eq!(q.filter.get(&path), Some(&Value::String(String::from("1 2"))));
}

#[test]
fn error_variants_name_their_cause() {
    assert!(matches!(
        json_api::value::Key::from_str("a@b"),
        Err(Error::InvalidMemberName(_))
    ));
    assert!(matches!(
        json_api::doc::Version::from_str("2.0"),
        Err(Error::UnsupportedVersion(_))
    ));
    assert!(matches!(query::from_str("unknown=1"), Err(Error::Query(_))));

    let mut missing: Option<u64> = None;
    assert!(matches!(
        json_api::builder::required("size", &mut missing),
        Err(Error::MissingField(_))
    ));
    let mut present: Option<u64> = Some(3);
    assert_eq!(json_api::builder::required("size", &mut present), Ok(3));
    assert_eq!(present, None);
    let mut some: Option<u64> = Some(7);
    assert_eq!(json_api::builder::optional(&mut some), Some(7));
    assert_eq!(some, None);
}

#[test]
fn query_builder_rejects_invalid_member_names() {
    assert!(Query::builder().fields("bad name!", &["title"]).build().is_err());
    assert!(Query::builder().includes("a..b").build().is_err());
    assert!(Query::builder().sort("-x", Direction::Asc).build().is_err());
}
