use steam_cmd::{GameId, Item, ItemId, Steam, SteamBuilderError};

fn item(game: usize, id: usize) -> Item {
    Item { game: GameId(game), item: ItemId(id) }
}

#[test]
fn empty_config_args() {
    let steam = Steam::builder()
        .home(String::from("/home/user"))
        .exe(String::from("/opt/steamcmd/steamcmd.sh"))
        .build()
        .map_err(|_| ())
        .ok();
    assert!(steam.is_none(), "items were never set, so build must fail");

    let steam = Steam { home: String::from("/h"), exe: String::from("/e"), items: Vec::new() };
    let args = steam.args();
    assert_eq!(args, vec!["+login", "anonymous", "+quit"]);
}

#[test]
fn builder_reports_first_missing_field() {
    assert_eq!(Steam::builder().build().unwrap_err(), SteamBuilderError::UninitializedHome);
    assert_eq!(
        Steam::builder().home(String::from("/h")).build().unwrap_err(),
        SteamBuilderError::UninitializedExe
    );
    assert_eq!(
        Steam::builder().home(String::from("/h")).exe(String::from("/e")).build().unwrap_err(),
        SteamBuilderError::UninitializedItems
    );
}

#[test]
fn builder_collects_items_in_order() {
    let steam = Steam::builder()
        .home(String::from("/home/user"))
        .exe(String::from("/opt/steamcmd/steamcmd.sh"))
        .add_item(item(294100, 1631756268))
        .add_item(item(294100, 2009463077))
        .build()
        .unwrap();
    assert_eq!(steam.home, "/home/user");
    assert_eq!(steam.exe, "/opt/steamcmd/steamcmd.sh");
    assert_eq!(steam.items, vec![item(294100, 1631756268), item(294100, 2009463077)]);
}

#[test]
fn one_directive_per_item() {
    let steam = Steam {
        home: String::from("/h"),
        exe: String::from("/e"),
        items: vec![item(294100, 1631756268), item(294100, 7), item(4000, 123456)],
    };
    let args = steam.args();
    assert_eq!(
        args,
        vec![
            "+login",
            "anonymous",
            "+workshop_download_item",
            "294100",
            "1631756268",
            "+workshop_download_item",
            "294100",
            "7",
            "+workshop_download_item",
            "4000",
            "123456",
            "+quit",
        ]
    );
    let directives = args.iter().filter(|a| a.as_str() == "+workshop_download_item").count();
    assert_eq!(directives, 3);
}

#[test]
fn zero_identifier_renders_as_single_digit() {
    let steam = Steam { home: String::from("/h"), exe: String::from("/e"), items: vec![item(0, 0)] };
    let args = steam.args();
    assert_eq!(args, vec!["+login", "anonymous", "+workshop_download_item", "0", "0", "+quit"]);
}

#[test]
fn largest_identifier_renders_in_full() {
    let steam = Steam {
        home: String::from("/h"),
        exe: String::from("/e"),
        items: vec![item(usize::MAX, usize::MAX)],
    };
    let args = steam.args();
    assert_eq!(args[3], usize::MAX.to_string());
    assert_eq!(args[4], usize::MAX.to_string());
}

#[test]
fn invocation_with_env_wrapper() {
    let steam = Steam {
        home: String::from("/home/user"),
        exe: String::from("/opt/steamcmd/steamcmd.sh"),
        items: vec![item(294100, 5)],
    };
    let inv = steam.invocation(true);
    assert_eq!(inv.program, "env");
    assert_eq!(
        inv.args,
        vec![
            "HOME=/home/user",
            "/opt/steamcmd/steamcmd.sh",
            "+login",
            "anonymous",
            "+workshop_download_item",
            "294100",
            "5",
            "+quit",
        ]
    );
    assert_eq!(inv.current_dir, "/home/user");
    assert!(inv.home_env.is_none());
}

#[test]
fn invocation_with_direct_env() {
    let steam = Steam {
        home: String::from("/home/user"),
        exe: String::from("C:\\steamcmd\\steamcmd.exe"),
        items: Vec::new(),
    };
    let inv = steam.invocation(false);
    assert_eq!(inv.program, "C:\\steamcmd\\steamcmd.exe");
    assert_eq!(inv.args, vec!["+login", "anonymous", "+quit"]);
    assert_eq!(inv.current_dir, "/home/user");
    assert_eq!(inv.home_env.as_deref(), Some("/home/user"));
}
