use dropcheck::{DropCheck, DropState, DropToken};

#[test]
fn fresh_set_has_none_dropped_and_all_dropped() {
    let set = DropCheck::new();
    assert!(set.none_dropped());
    assert!(set.all_dropped());
    assert_eq!(set.len(), 0);
    set.finish();
}

#[test]
fn default_set_is_empty() {
    let set = DropCheck::default();
    assert_eq!(set.len(), 0);
    assert!(set.none_dropped());
    assert!(set.all_dropped());
}

#[test]
fn none_dropped_until_the_first_drop() {
    let mut set = DropCheck::new();
    assert!(set.none_dropped());

    let t1 = set.token();
    assert!(set.none_dropped());

    let t2 = set.token();
    assert!(set.none_dropped());

    set.drop_token(t1);
    assert!(!set.none_dropped());

    set.drop_token(t2);
    assert!(!set.none_dropped());
    assert!(set.all_dropped());
}

#[test]
fn all_dropped_after_a_hundred_tokens_are_dropped() {
    let mut set = DropCheck::new();
    assert!(set.all_dropped());

    let mut v = vec![];
    for _ in 0..100 {
        v.push(set.token());
    }
    assert_eq!(set.len(), 100);
    assert!(!set.all_dropped());
    assert!(set.none_dropped());

    set.drop_all(v);
    assert!(set.all_dropped());
    assert!(!set.none_dropped());
    set.finish();
}

#[test]
fn ten_tokens_in_a_container_are_all_dropped_with_it() {
    let mut set = DropCheck::new();
    let mut container = Vec::new();
    for _ in 0..10 {
        container.push(set.token());
    }
    set.drop_all(container);
    assert!(set.all_dropped());
    assert_eq!(set.len(), 10);
    set.finish();
}

#[test]
fn forgotten_token_keeps_the_set_from_all_dropped() {
    let mut set = DropCheck::new();
    let token = set.token();
    assert!(set.tracks(&token));
    std::mem::forget(token);
    assert!(!set.all_dropped());
    assert!(set.none_dropped());
}

#[test]
fn some_but_not_all_dropped_is_neither() {
    let mut set = DropCheck::new();
    let mut tokens = Vec::new();
    for _ in 0..5 {
        tokens.push(set.token());
    }
    let last = tokens.pop().unwrap();
    let fourth = tokens.pop().unwrap();
    set.drop_token(last);
    assert!(!set.none_dropped());
    assert!(!set.all_dropped());
    set.drop_token(fourth);
    assert!(!set.none_dropped());
    assert!(!set.all_dropped());
    set.drop_all(tokens);
    assert!(set.all_dropped());
    assert!(!set.none_dropped());
}

#[test]
fn tokens_are_numbered_in_order_of_issue() {
    let mut set = DropCheck::new();
    let a = set.token();
    let b = set.token();
    let (c, at) = set.pair();
    assert_eq!(a.index(), Some(0));
    assert_eq!(b.index(), Some(1));
    assert_eq!(c.index(), Some(2));
    assert_eq!(at, 2);
    assert_eq!(set.len(), 3);
}

#[test]
fn states_stay_listed_after_their_tokens_are_dropped() {
    let mut set = DropCheck::new();
    let a = set.token();
    let b = set.token();
    set.drop_token(a);
    assert_eq!(set.len(), 2);
    set.drop_token(b);
    assert_eq!(set.len(), 2);
    assert!(set.state(0).unwrap().is_dropped());
    assert!(set.state(1).unwrap().is_dropped());
}

#[test]
fn drop_token_marks_only_its_own_state() {
    let mut set = DropCheck::new();
    let a = set.token();
    let b = set.token();
    let c = set.token();
    set.drop_token(b);
    assert!(set.state(0).unwrap().is_not_dropped());
    assert!(set.state(1).unwrap().is_dropped());
    assert!(set.state(2).unwrap().is_not_dropped());
    assert!(set.tracks(&a));
    assert!(set.tracks(&c));
}

#[test]
fn pair_state_follows_its_token() {
    let mut set = DropCheck::new();
    let first = set.token();
    let mut v = Vec::new();
    for _ in 0..10 {
        v.push(first.clone_in(Some(&mut set)));
    }

    let (t1, s1) = set.pair();
    v.push(t1);

    assert!(set.state(s1).unwrap().is_not_dropped());
    assert!(!set.state(s1).unwrap().is_dropped());
    let popped = v.pop().unwrap();
    assert!(set.state(s1).unwrap().is_not_dropped());
    set.drop_token(popped);
    assert!(set.state(s1).unwrap().is_dropped());
    assert!(!set.state(s1).unwrap().is_not_dropped());
}

#[test]
fn pair_state_is_untouched_by_other_tokens() {
    let mut set = DropCheck::new();
    let other = set.token();
    let (token, at) = set.pair();
    let later = set.token();
    set.drop_token(other);
    assert!(set.state(at).unwrap().is_not_dropped());
    set.drop_token(later);
    assert!(set.state(at).unwrap().is_not_dropped());
    let clone = token.clone_in(Some(&mut set));
    assert!(set.state(at).unwrap().is_not_dropped());
    set.drop_token(clone);
    assert!(set.state(at).unwrap().is_not_dropped());
    set.drop_token(token);
    assert!(set.state(at).unwrap().is_dropped());
}

#[test]
fn state_out_of_range_is_none() {
    let mut set = DropCheck::new();
    assert!(set.state(0).is_none());
    let _token = set.token();
    assert!(set.state(0).is_some());
    assert!(set.state(1).is_none());
    assert!(set.state(usize::MAX).is_none());
}

#[test]
fn push_appends_the_state_as_it_is() {
    let mut set = DropCheck::new();
    set.push(DropState::new());
    assert_eq!(set.len(), 1);
    assert!(set.none_dropped());
    assert!(!set.all_dropped());
    let mut marked = DropState::new();
    marked.set_dropped();
    set.push(marked);
    assert_eq!(set.len(), 2);
    assert!(!set.none_dropped());
    assert!(!set.all_dropped());
    assert!(set.state(0).unwrap().is_not_dropped());
    assert!(set.state(1).unwrap().is_dropped());
}

#[test]
fn push_of_dropped_states_only_is_all_dropped() {
    let mut set = DropCheck::new();
    for _ in 0..3 {
        set.push(DropState::from_count(1).unwrap());
    }
    assert!(set.all_dropped());
    assert!(!set.none_dropped());
    set.finish();
}

#[test]
fn tracks_tells_live_tokens_of_this_set() {
    let mut set = DropCheck::new();
    let mut other = DropCheck::new();
    let a = set.token();
    assert!(set.tracks(&a));
    assert!(!other.tracks(&a));
    let b = other.token();
    assert!(other.tracks(&b));
    other.drop_token(b);
    let stale: DropToken = set.token();
    set.drop_token(a);
    assert!(set.tracks(&stale));
    assert!(!other.tracks(&stale));
}

#[test]
fn dropped_state_admits_no_second_drop() {
    let mut set = DropCheck::new();
    let mut twin_set = DropCheck::new();
    let token = set.token();
    let twin = twin_set.token();
    assert_eq!(token.index(), twin.index());
    assert!(set.tracks(&twin));
    set.drop_token(token);
    assert!(!set.tracks(&twin));
    assert!(twin_set.tracks(&twin));
}

#[test]
fn drop_all_of_nothing_changes_nothing() {
    let mut set = DropCheck::new();
    let token = set.token();
    set.drop_all(Vec::new());
    assert!(set.none_dropped());
    assert!(set.tracks(&token));
}

#[test]
fn set_debug_names_the_type() {
    let set = DropCheck::new();
    let text = format!("{:?}", set);
    assert!(text.contains("DropCheck"));
}
