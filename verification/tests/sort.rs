use json_api::query::{Direction, Page, Sort};
use json_api::value::Path;

#[test]
fn page_new() {
    let mut page = Page::new(0, None);

    // Page number should always be a positive unsigned integer.
    // If 0 is passed to the constructor, it should be treated as 1.
    assert_eq!(page.number, 1);
    assert_eq!(page.size, None);

    for number in 1..5 {
        page = Page::new(number, None);

        assert_eq!(page.number, number);
        assert_eq!(page.size, None);
    }

    for size in (0..10).map(Some) {
        page = Page::new(1, size);

        assert_eq!(page.number, 1);
        assert_eq!(page.size, size);
    }
}

#[test]
fn direction_is_asc() {
    assert_eq!(Direction::Asc.is_asc(), true);
    assert_eq!(Direction::Desc.is_asc(), false);
}

#[test]
fn direction_is_desc() {
    assert_eq!(Direction::Desc.is_desc(), true);
    assert_eq!(Direction::Asc.is_desc(), false);
}

#[test]
fn direction_reverse() {
    let asc = Direction::Asc;
    let desc = Direction::Desc;

    assert_eq!(asc.reverse(), desc);
    assert_eq!(desc.reverse(), asc);
}

#[test]
fn sort_from_str() {
    let field = "created-at".parse::<Path>().unwrap();
    let mut sort = Sort::from_str("created-at").unwrap();

    assert_eq!(sort.field, field);
    assert_eq!(sort.direction, Direction::Asc);

    sort = Sort::from_str("-created-at").unwrap();

    assert_eq!(sort.field, field);
    assert_eq!(sort.direction, Direction::Desc);
}

#[test]
fn sort_reverse() {
    let field = "created-at".parse().unwrap();
    let chrono = Sort::new(field, Direction::Asc);
    let latest = chrono.reverse();

    assert_eq!(chrono.field, latest.field);
    assert_eq!(chrono.direction, Direction::Asc);
    assert_eq!(latest.direction, Direction::Desc);
}

#[test]
fn sort_to_string() {
    let sort = Sort::new("created-at".parse().unwrap(), Direction::Asc);

    assert_eq!(sort.to_string(), "created-at");
    assert_eq!(sort.reverse().to_string(), "-created-at");
}
