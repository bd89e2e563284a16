use database::ordered_list::{
    key_at_end, key_at_head, key_before, written, InsertError, OrderedEntry, OrderedList,
    StoreError,
};
use database::orm::channel::{create_error, readable, writable, ChannelTable, CreateError};
use database::orm::channel::{HasReadPermissionError, HasWritePermissionError};
use database::orm::guild::{GuildTable, JoinError};
use database::snowflake::Snowflake;
use std::collections::HashSet;

fn ids(list: &OrderedList, scope: i64) -> Vec<i64> {
    list.list_ordered(scope).iter().map(|e| e.id).collect()
}

fn keys(list: &OrderedList, scope: i64) -> Vec<i64> {
    list.list_ordered(scope).iter().map(|e| e.order_key).collect()
}

#[test]
fn append_to_an_empty_scope_takes_key_one() {
    let mut list = OrderedList::new();
    assert_eq!(list.append(10, 100), Ok(()));
    assert_eq!(list.list_ordered(10), vec![OrderedEntry { id: 100, scope: 10, order_key: 1 }]);
    assert_eq!(list.max_key(10), Some(1));
    assert_eq!(list.max_key(11), None);
    assert_eq!(list.len(), 1);
}

#[test]
fn append_takes_the_key_after_the_greatest() {
    let mut list = OrderedList::new();
    for id in [100, 101, 102] {
        assert_eq!(list.insert_at(10, id, None), Ok(()));
    }
    assert_eq!(ids(&list, 10), vec![100, 101, 102]);
    assert_eq!(keys(&list, 10), vec![1, 2, 3]);
}

#[test]
fn insert_before_shifts_the_reference_and_what_follows() {
    let mut list = OrderedList::new();
    for id in [100, 101, 102] {
        list.append(10, id).unwrap();
    }
    list.append(20, 200).unwrap();
    assert_eq!(list.insert_at(10, 103, Some(101)), Ok(()));
    assert_eq!(ids(&list, 10), vec![100, 103, 101, 102]);
    assert_eq!(keys(&list, 10), vec![1, 2, 3, 4]);
    assert_eq!(list.key_of(10, 103), Some(2));
    assert_eq!(list.key_of(10, 101), Some(3));
    assert_eq!(list.key_of(10, 100), Some(1));
    assert_eq!(list.key_of(20, 200), Some(1));
    assert_eq!(list.insert_at(10, 104, Some(100)), Ok(()));
    assert_eq!(ids(&list, 10), vec![104, 100, 103, 101, 102]);
    assert_eq!(keys(&list, 10), vec![1, 2, 3, 4, 5]);
}

#[test]
fn insert_before_a_missing_entry_changes_nothing() {
    let mut list = OrderedList::new();
    list.append(10, 100).unwrap();
    list.append(20, 200).unwrap();
    assert_eq!(list.insert_at(10, 101, Some(999)), Err(InsertError::ReferenceNotFound));
    assert_eq!(list.insert_at(10, 101, Some(200)), Err(InsertError::ReferenceNotFound));
    assert_eq!(list.len(), 2);
    assert_eq!(ids(&list, 10), vec![100]);
    assert_eq!(keys(&list, 10), vec![1]);
    assert_eq!(ids(&list, 20), vec![200]);
    assert!(!list.contains_id(101));
}

#[test]
fn an_id_cannot_be_inserted_twice() {
    let mut list = OrderedList::new();
    list.append(10, 100).unwrap();
    list.append(10, 101).unwrap();
    let duplicate = Err(InsertError::DatabaseError(StoreError::DuplicateId));
    assert_eq!(list.append(10, 100), duplicate);
    assert_eq!(list.append(20, 100), duplicate);
    assert_eq!(list.insert_at(10, 101, Some(100)), duplicate);
    assert_eq!(keys(&list, 10), vec![1, 2]);
    assert_eq!(list.len(), 2);
}

#[test]
fn insert_first_goes_to_the_head() {
    let mut list = OrderedList::new();
    assert_eq!(list.insert_first(10, 100), Ok(()));
    assert_eq!(list.insert_first(10, 101), Ok(()));
    assert_eq!(list.insert_first(10, 102), Ok(()));
    assert_eq!(ids(&list, 10), vec![102, 101, 100]);
    assert_eq!(keys(&list, 10), vec![1, 2, 3]);
    assert_eq!(list.first_entry(10), Some(OrderedEntry { id: 102, scope: 10, order_key: 1 }));
    assert_eq!(list.first_entry(11), None);
    assert_eq!(list.position_of(101), Some(1));
    assert_eq!(list.position_of(7), None);
}

#[test]
fn fifty_appends_take_fifty_distinct_keys() {
    let mut list = OrderedList::new();
    list.append(9, 1).unwrap();
    for id in 100..150 {
        assert_eq!(list.append(10, id), Ok(()));
    }
    let listing = list.list_ordered(10);
    let distinct: HashSet<i64> = listing.iter().map(|e| e.order_key).collect();
    assert_eq!(listing.len(), 50);
    assert_eq!(distinct.len(), 50);
    assert_eq!(keys(&list, 10), (1..=50).collect::<Vec<i64>>());
    assert_eq!(ids(&list, 10), (100..150).collect::<Vec<i64>>());
}

#[test]
fn scopes_do_not_touch_each_other() {
    let mut list = OrderedList::new();
    for id in [1, 2, 3] {
        list.append(10, id).unwrap();
        list.append(20, id + 10).unwrap();
    }
    list.insert_at(10, 4, Some(1)).unwrap();
    assert_eq!(keys(&list, 10), vec![1, 2, 3, 4]);
    assert_eq!(ids(&list, 20), vec![11, 12, 13]);
    assert_eq!(keys(&list, 20), vec![1, 2, 3]);
    assert_eq!(list.list_ordered(30), vec![]);
}

#[test]
fn keys_are_decided_from_what_the_store_finds() {
    assert_eq!(key_before(Some(5)), Ok(5));
    assert_eq!(key_before(None), Err(InsertError::ReferenceNotFound));
    assert_eq!(key_at_end(None), Ok(1));
    assert_eq!(key_at_end(Some(41)), Ok(42));
    assert_eq!(key_at_end(Some(-3)), Ok(-2));
    assert_eq!(
        key_at_end(Some(i64::MAX)),
        Err(InsertError::DatabaseError(StoreError::KeyOutOfRange))
    );
    assert_eq!(key_at_head(None), 1);
    assert_eq!(key_at_head(Some(7)), 7);
    assert_eq!(key_at_head(Some(-7)), -7);
    assert_eq!(written(1), Ok(()));
    assert_eq!(written(0), Err(InsertError::NotInserted));
    assert_eq!(written(2), Err(InsertError::NotInserted));
}

fn sf(n: u64) -> Snowflake {
    Snowflake::from_number(n)
}

#[test]
fn channels_are_listed_in_their_order() {
    let mut table = ChannelTable::new();
    assert_eq!(table.create(sf(1), sf(50), "general", None), Ok(()));
    assert_eq!(table.create(sf(2), sf(50), "random", None), Ok(()));
    assert_eq!(table.create(sf(3), sf(50), "news", Some(sf(2))), Ok(()));
    assert_eq!(table.create(sf(4), sf(60), "other", None), Ok(()));
    let channels = table.channels(sf(50));
    let listed: Vec<(i64, &str)> =
        channels.iter().map(|c| (c.id.into_number(), c.name.as_str())).collect();
    assert_eq!(listed, vec![(1, "general"), (3, "news"), (2, "random")]);
    let channels = table.channels(sf(60));
    assert_eq!(channels.len(), 1);
    assert_eq!(channels[0].name, "other");
    assert!(table.channels(sf(70)).is_empty());
}

#[test]
fn channel_before_a_channel_of_another_guild_is_refused() {
    let mut table = ChannelTable::new();
    table.create(sf(1), sf(50), "general", None).unwrap();
    table.create(sf(2), sf(60), "general", None).unwrap();
    assert_eq!(
        table.create(sf(3), sf(50), "news", Some(sf(2))),
        Err(CreateError::NextChannelDoesNotExist)
    );
    assert_eq!(
        table.create(sf(3), sf(50), "news", Some(sf(9))),
        Err(CreateError::NextChannelDoesNotExist)
    );
    assert_eq!(
        table.create(sf(1), sf(50), "again", None),
        Err(CreateError::DatabaseError(StoreError::DuplicateId))
    );
    assert_eq!(table.channels(sf(50)).len(), 1);
}

#[test]
fn channel_errors_follow_the_list() {
    assert_eq!(create_error(InsertError::ReferenceNotFound), CreateError::NextChannelDoesNotExist);
    assert_eq!(create_error(InsertError::NotInserted), CreateError::NotInserted);
    assert_eq!(
        create_error(InsertError::DatabaseError(StoreError::Unavailable)),
        CreateError::DatabaseError(StoreError::Unavailable)
    );
    assert_eq!(readable(Some(true)), Ok(()));
    assert_eq!(readable(Some(false)), Err(HasReadPermissionError::NotFound));
    assert_eq!(readable(None), Err(HasReadPermissionError::NotFound));
    assert_eq!(writable(Some(true)), Ok(()));
    assert_eq!(writable(Some(false)), Err(HasWritePermissionError::NotFound));
    assert_eq!(writable(None), Err(HasWritePermissionError::NotFound));
}

#[test]
fn a_joined_guild_goes_to_the_top() {
    let mut table = GuildTable::new();
    assert_eq!(table.join(sf(1), sf(100), sf(7)), Ok(()));
    assert_eq!(table.join(sf(2), sf(200), sf(7)), Ok(()));
    assert_eq!(table.join(sf(3), sf(300), sf(8)), Ok(()));
    assert_eq!(table.join(sf(4), sf(300), sf(7)), Ok(()));
    let joined: Vec<i64> = table.joined_guilds(sf(7)).iter().map(|g| g.into_number()).collect();
    assert_eq!(joined, vec![300, 200, 100]);
    let joined: Vec<i64> = table.joined_guilds(sf(8)).iter().map(|g| g.into_number()).collect();
    assert_eq!(joined, vec![300]);
    assert_eq!(
        table.join(sf(4), sf(100), sf(8)),
        Err(JoinError::DatabaseError(StoreError::DuplicateId))
    );
    assert_eq!(table.joined_guilds(sf(8)).len(), 1);
}
