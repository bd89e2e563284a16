use database::api::account::login::{login_failure, token_failure, INVALID_CREDENTIALS};
use database::api::account::register::{check, password_code, register_failure};
use database::api::authentication::{bearer_token, refusal, session};
use database::api::channel::create as channel;
use database::api::guild::create as guild;
use database::api::message::send;
use database::api::result::{failure, Status};
use database::ordered_list::StoreError;
use database::orm::access_token::{CheckError, CreateError as TokenError, EnvelopeError};
use database::orm::channel::CreateError as ChannelError;
use database::orm::guild::{
    created, group_joined, joined, permissions, CreateError as GuildError, GetPermissionsError,
    JoinError, JoinedRow,
};
use database::orm::message::{
    inserted, message_from_row, messages_from_rows, permitted, CreateError as MessageError,
    MessageRow,
};
use database::orm::channel::HasWritePermissionError;
use database::orm::user::{LoginError, NewUserError, UserRow};
use database::password::PasswordError;
use database::snowflake::Snowflake;

fn owner(id: i64) -> UserRow {
    UserRow {
        id,
        username: format!("owner{}", id),
        discrim: 1,
        profile_img_id: None,
        accent_color: None,
        pronouns: None,
        bio: None,
    }
}

fn joined_row(id: i64, channel_id: i64) -> JoinedRow {
    JoinedRow {
        id,
        name: format!("guild{}", id),
        owner: owner(id + 1000),
        channel_id,
        channel_name: format!("channel{}", channel_id),
    }
}

#[test]
fn rows_are_grouped_by_guild_in_order_of_first_appearance() {
    let rows = vec![
        joined_row(5, 50),
        joined_row(5, 51),
        joined_row(3, 30),
        joined_row(5, 52),
        joined_row(9, 90),
        joined_row(3, 31),
    ];
    let guilds = group_joined(&rows);
    let shape: Vec<(i64, Vec<i64>)> = guilds
        .iter()
        .map(|g| (g.id.into_number(), g.channels.iter().map(|c| c.id.into_number()).collect()))
        .collect();
    assert_eq!(shape, vec![(5, vec![50, 51, 52]), (3, vec![30, 31]), (9, vec![90])]);
    assert_eq!(guilds[1].name, "guild3");
    assert_eq!(guilds[1].owner.username, "owner1003");
    assert_eq!(guilds[1].owner.id.into_number(), 1003);
    assert_eq!(guilds[1].channels[1].name, "channel31");
    assert!(group_joined(&vec![]).is_empty());
}

#[test]
fn guild_statements_are_decided_from_what_the_store_reports() {
    assert_eq!(created(1), Ok(()));
    assert_eq!(created(0), Err(GuildError::NotInserted));
    assert_eq!(joined(1), Ok(()));
    assert_eq!(joined(2), Err(JoinError::NotInserted));
    let user = Snowflake::from_number(77);
    assert_eq!(permissions(Some(77), user), Ok(true));
    assert_eq!(permissions(Some(78), user), Ok(false));
    assert_eq!(permissions(None, user), Err(GetPermissionsError::NotInGuild));
}

#[test]
fn message_is_read_from_its_row() {
    let row = MessageRow {
        id: (1234 << 21) | (5 << 11) | 6,
        channel_id: 4_196_353,
        author: owner(9),
        content: "hi".to_string(),
        updated_at: 99,
    };
    let message = message_from_row(&row);
    assert_eq!(message.id, Snowflake { timestamp: 1234, machine_id: 5, increment: 6 });
    assert_eq!(message.channel_id.into_number(), 4_196_353);
    assert_eq!(message.author.username, "owner9");
    assert_eq!(message.content, "hi");
    assert_eq!(message.sent_at, 1234);
    assert_eq!(message.updated_at, 99);
    let messages = messages_from_rows(&vec![row.clone(), row]);
    assert_eq!(messages.len(), 2);
    assert_eq!(messages[1].sent_at, 1234);
}

#[test]
fn sending_is_decided_from_permission_and_rows() {
    assert_eq!(permitted(Ok(())), Ok(()));
    assert_eq!(permitted(Err(HasWritePermissionError::NotFound)), Err(MessageError::NotFound));
    assert_eq!(
        permitted(Err(HasWritePermissionError::DatabaseError(StoreError::Unavailable))),
        Err(MessageError::DatabaseError(StoreError::Unavailable))
    );
    assert_eq!(inserted(1), Ok(()));
    assert_eq!(inserted(0), Err(MessageError::NotInserted));
}

#[test]
fn bearer_token_is_what_follows_the_prefix() {
    assert_eq!(bearer_token(Some(Some("Bearer abc.def.ghi"))).unwrap(), "abc.def.ghi");
    assert_eq!(bearer_token(Some(Some("Bearer "))).unwrap(), "");
    let f = bearer_token(None).unwrap_err();
    assert_eq!((f.status.code(), f.code), (401, "NoAuthToken"));
    let f = bearer_token(Some(None)).unwrap_err();
    assert_eq!((f.status.code(), f.code), (401, "BadAuthToken"));
    assert_eq!(f.data, Some("Could not convert to string"));
    for header in ["abc", "bearer abc", "Bearer", "Basic abc", " Bearer abc", ""] {
        let f = bearer_token(Some(Some(header))).unwrap_err();
        assert_eq!((f.status.code(), f.code), (401, "BadAuthToken"));
        assert_eq!(f.data, Some("Missing Bearer prefix"));
    }
}

#[test]
fn refused_tokens_are_told_apart() {
    let f = refusal(&CheckError::InvalidToken);
    assert_eq!((f.status, f.code), (Status::Unauthorized, "InvalidAuthToken"));
    let f = refusal(&CheckError::JwtDecoding(EnvelopeError::MissingClaim));
    assert_eq!((f.status, f.code), (Status::Unauthorized, "BadAuthToken"));
    let f = refusal(&CheckError::DatabaseError(StoreError::Unavailable));
    assert_eq!((f.status, f.code), (Status::InternalServerError, "InternalServerError"));
    let s = session(Ok((Snowflake::from_number(5), 9))).unwrap();
    assert_eq!((s.user_id.into_number(), s.token), (5, 9));
    assert_eq!(session(Err(CheckError::InvalidToken)).unwrap_err().status.code(), 401);
}

#[test]
fn registration_is_checked_field_by_field() {
    assert!(check("someone", "a@b.c", "12345678").is_ok());
    let f = check("so", "a@b.c", "12345678").unwrap_err();
    assert_eq!((f.status.code(), f.code), (400, "InvalidUsername"));
    let f = check("so", "nothing", "1").unwrap_err();
    assert_eq!(f.code, "InvalidUsername");
    let f = check("someone", "nothing", "1").unwrap_err();
    assert_eq!((f.status.code(), f.code), (400, "InvalidEmail"));
    let f = check("someone", "a@b.c", "1234567").unwrap_err();
    assert_eq!((f.status.code(), f.code), (400, "PasswordTooShort"));
    let f = check("someone", "a@b.c", &"1".repeat(65)).unwrap_err();
    assert_eq!((f.status.code(), f.code), (400, "PasswordTooLong"));
    assert_eq!(password_code(PasswordError::TooCommon), "PasswordTooCommon");
    assert_eq!(password_code(PasswordError::TooSimilarToUsername), "PasswordLikeUsername");
    assert_eq!(password_code(PasswordError::TooSimilarToEmail), "PasswordLikeEmail");
    assert_eq!(password_code(PasswordError::TooWeak), "PasswordTooWeak");
}

#[test]
fn account_failures_have_their_codes() {
    let f = register_failure(NewUserError::AllDiscriminatorsUsed);
    assert_eq!((f.status.code(), f.code), (400, "UsernameTaken"));
    let f = register_failure(NewUserError::EmailTaken);
    assert_eq!((f.status.code(), f.code), (400, "EmailTaken"));
    for e in [
        NewUserError::NotInserted,
        NewUserError::UserNotFound,
        NewUserError::DatabaseError(StoreError::Unavailable),
    ] {
        let f = register_failure(e);
        assert_eq!((f.status.code(), f.code), (500, "InternalServerError"));
    }
    let f = login_failure(LoginError::InvalidCredentials);
    assert_eq!((f.status.code(), f.code), (401, INVALID_CREDENTIALS));
    assert_eq!(login_failure(LoginError::UserNotFound).status.code(), 500);
    assert_eq!(login_failure(LoginError::DatabaseError(StoreError::Unavailable)).status.code(), 500);
    assert_eq!(token_failure(&TokenError::NotInserted).code, "InternalServerError");
    assert_eq!(failure(Status::Success, "x").status.code(), 200);
}

#[test]
fn channel_names_are_short_lower_case_words() {
    for name in ["general", "abc", "a-b", "a--9", "news-2024", &"a".repeat(32)] {
        assert!(channel::check_name(name).is_ok(), "{}", name);
    }
    assert_eq!(channel::check_name("a").unwrap_err().code, "NameTooShort");
    assert_eq!(channel::check_name("").unwrap_err().code, "NameTooShort");
    assert_eq!(channel::check_name(&"a".repeat(33)).unwrap_err().code, "NameTooLong");
    for name in ["ab", "General", "9abc", "abc-", "-abc", "a b", "a_b", "abc\n"] {
        let f = channel::check_name(name).unwrap_err();
        assert_eq!((f.status.code(), f.code), (400, "NameInvalid"), "{}", name);
        assert_eq!(f.data, Some("^[a-z][a-z0-9-]+[a-z0-9]$"));
    }
    assert!(channel::name_verdict(5, Some(true)).is_ok());
    assert_eq!(channel::name_verdict(5, Some(false)).unwrap_err().code, "NameInvalid");
    assert_eq!(channel::name_verdict(5, None).unwrap_err().status.code(), 500);
    assert_eq!(channel::name_verdict(1, Some(true)).unwrap_err().code, "NameTooShort");
    assert_eq!(channel::name_verdict(33, Some(true)).unwrap_err().code, "NameTooLong");
}

#[test]
fn channel_failures_have_their_codes() {
    assert!(channel::permitted(Ok(true)).is_ok());
    let f = channel::permitted(Ok(false)).unwrap_err();
    assert_eq!((f.status.code(), f.code), (401, "PermissionDenied"));
    let f = channel::permitted(Err(GetPermissionsError::NotInGuild)).unwrap_err();
    assert_eq!((f.status.code(), f.code), (400, "GuildNotFound"));
    let f = channel::permitted(Err(GetPermissionsError::DatabaseError(StoreError::Unavailable)))
        .unwrap_err();
    assert_eq!(f.status.code(), 500);
    let f = channel::create_failure(ChannelError::NextChannelDoesNotExist);
    assert_eq!((f.status.code(), f.code), (400, "PlaceBeforeNotFound"));
    assert_eq!(channel::create_failure(ChannelError::NotInserted).status.code(), 500);
}

#[test]
fn guild_names_and_messages_are_bounded() {
    assert!(guild::check_name("ab").is_ok());
    assert!(guild::check_name(&"a".repeat(60)).is_ok());
    assert_eq!(guild::check_name("a").unwrap_err().code, "NameTooShort");
    assert_eq!(guild::check_name(&"a".repeat(61)).unwrap_err().code, "NameTooLong");
    assert_eq!(guild::create_failure(GuildError::NotInserted).status.code(), 500);
    assert_eq!(guild::join_failure(JoinError::NotInserted).status.code(), 500);
    assert!(send::check_content("x").is_ok());
    assert!(send::check_content(&"x".repeat(10000)).is_ok());
    assert_eq!(send::check_content("").unwrap_err().code, "MessageTooShort");
    assert_eq!(send::check_content(&"x".repeat(10001)).unwrap_err().code, "MessageTooLong");
    let f = send::send_failure(MessageError::NotFound);
    assert_eq!((f.status.code(), f.code), (400, "ChannelNotFound"));
    assert_eq!(send::send_failure(MessageError::NotInserted).status.code(), 500);
}
