use opdb_scraper::df::models::{Character, DevilFruit, DevilFruitName, DfTypeInfo};
use opdb_scraper::df::types::{DfSubType, DfType, HasDevilFruit};
use opdb_scraper::pirates::models::Pirate;
use opdb_scraper::ships::models::Ship;
use opdb_scraper::types::{NamedJpEn, NamedUrl, UrlTyped};

#[test]
fn df_has_valid_traits() {
    let dftype = DfTypeInfo {
        df_type: DfType::Logia,
        cannon_count: 10,
        non_cannon_count: 1,
        description: "logia".to_string(),
    };
    assert_eq!(
        dftype.to_text(),
        "(df_type: Logia, cannon: 10, non-cannon: 1, description: logia)"
    );
    let df1 = DevilFruit {
        df_type: DfType::Zoan,
        df_sub_type: Some(DfSubType::MythicalZoan),
        name: "Nika".to_string(),
        en_name: "Nika".to_string(),
        description: "Used to Gomu".to_string(),
        pic_url: "pic".to_string(),
        df_url: "nika".to_string(),
    };
    let df2 = DevilFruit {
        df_type: DfType::Zoan,
        df_sub_type: Some(DfSubType::MythicalZoan),
        name: "Zeus".to_string(),
        en_name: "Zeus".to_string(),
        description: "Greek".to_string(),
        pic_url: "pic".to_string(),
        df_url: "zeus".to_string(),
    };
    let df3 = DevilFruit {
        df_type: DfType::Zoan,
        df_sub_type: Some(DfSubType::MythicalZoan),
        name: "Nika".to_string(),
        en_name: "Nika".to_string(),
        description: "Used to Gomu".to_string(),
        pic_url: "pic".to_string(),
        df_url: "nika".to_string(),
    };
    assert_ne!(df1, df2);
    assert_eq!(df1, df3);
    assert!(df1 < df2);
    assert_eq!(
        df1.to_text(),
        format!(
            "(df_type: {}, df_sub_type: {:?}, name: {}, english name: {}, pic: {}, url: {}, description: {})",
            df1.df_type.to_text(),
            df1.df_sub_type,
            df1.name,
            df1.en_name,
            df1.pic_url,
            df1.df_url,
            df1.description
        )
    );
    assert_eq!(DfType::Zoan, df3.df_type());
}

#[test]
fn char_has_valid_traits() {
    let character = Character {
        id: "1234".to_string(),
        name: "Foo".to_string(),
        pic_url: "pic".to_string(),
    };
    assert_eq!(character.get_path(), "/wiki/Character:1234");
}

#[test]
fn df_constructor_tests() {
    let df = DevilFruit::zoan(
        Some(DfSubType::MythicalZoan),
        DevilFruitName::new(
            "fruito".to_string(),
            "fruit".to_string(),
            "lorem".to_string(),
        ),
        "".to_string(),
        "".to_string(),
    );
    assert_eq!("fruit", df.en_name);
    let df = DevilFruit::non_zoan(
        DfType::Logia,
        DevilFruitName::new(
            "ananas".to_string(),
            "pinaple".to_string(),
            "lorem".to_string(),
        ),
        "".to_string(),
        "".to_string(),
    );
    assert_eq!("ananas", df.name);
}

#[test]
fn dftype_has_valid_impl() {
    let dft = DfType::Zoan;
    assert_eq!(dft.get_path(), "/wiki/Zoan");
    assert_eq!(dft.id_for_fruit_list(), "#List_of_Zoan-Type_Fruits");
    let dft = DfType::Logia;
    assert_eq!(dft.get_path(), "/wiki/Logia");
    assert_eq!(dft.id_for_fruit_list(), "#Logia-Types");
    let dft = DfType::Paramecia;
    assert_eq!(dft.get_path(), "/wiki/Paramecia");
    assert_eq!(dft.id_for_fruit_list(), "#Paramecia-Type_Fruits");
    let dft = DfType::Undetermined;
    assert_eq!(dft.get_path(), "");
    assert_eq!(dft.id_for_fruit_list(), "");

    let dfsub = DfSubType::AncientZoan;
    assert_eq!(dfsub.get_path(), "/wiki/Zoan");
    assert_eq!(dfsub.id_for_fruit_list(), "#Ancient_Zoan");
    let dfsub = DfSubType::MythicalZoan;
    assert_eq!(dfsub.get_path(), "/wiki/Zoan");
    assert_eq!(dfsub.id_for_fruit_list(), "#Mythical_Zoan");
}

fn create_test_pirate(
    name: &str,
    en_name: &str,
    description: &str,
    url: &str,
    pic_url: &str,
    ship_name: &str,
    ship_url: &str,
    captain_name: &str,
    captain_url: &str,
) -> Pirate {
    Pirate::new(
        NamedJpEn::new(
            name.to_string(),
            en_name.to_string(),
            description.to_string(),
        ),
        url.to_string(),
        vec![NamedUrl::new(ship_name.to_string(), ship_url.to_string())],
        vec![NamedUrl::new(
            captain_name.to_string(),
            captain_url.to_string(),
        )],
        pic_url.to_string(),
        false,
    )
}

#[test]
fn pirate_has_valid_traits() {
    let pirate = create_test_pirate(
        "Akagami Kaizokudan",
        "Red-Haired Pirates",
        "A powerful pirate crew led by Shanks",
        "pirate/red-haired-pirates",
        "https://example.com/red-haired-pirates.jpg",
        "Red Force",
        "ship/red-force",
        "Shanks",
        "pirate/shanks",
    );

    assert_eq!(pirate.get_path(), "pirate/red-haired-pirates");
    assert_eq!(pirate.name, "Akagami Kaizokudan");
    assert_eq!(pirate.en_name, "Red-Haired Pirates");
    assert_eq!(pirate.description, "A powerful pirate crew led by Shanks");
}

#[test]
fn pirate_ordering() {
    let pirate1 = create_test_pirate(
        "Akagami Kaizokudan",
        "Red-Haired Pirates",
        "A powerful pirate crew led by Shanks",
        "pirate/red-haired-pirates",
        "",
        "Red Force",
        "ship/red-force",
        "Shanks",
        "pirate/shanks",
    );

    let pirate2 = create_test_pirate(
        "Mugiwara Kaizokudan",
        "Straw Hat Pirates",
        "A pirate crew led by Monkey D. Luffy",
        "pirate/straw-hat-pirates",
        "",
        "Thousand Sunny",
        "ship/thousand-sunny",
        "Monkey D. Luffy",
        "pirate/monkey-d-luffy",
    );

    assert!(pirate2 > pirate1);
    assert_ne!(pirate1, pirate2);
}

fn create_test_ship(
    name: &str,
    en_name: &str,
    description: &str,
    url: &str,
    pic_url: &str,
    affiliation_name: &str,
    affiliation_url: &str,
    status: &str,
) -> Ship {
    Ship::new(
        NamedJpEn::new(
            name.to_string(),
            en_name.to_string(),
            description.to_string(),
        ),
        url.to_string(),
        pic_url.to_string(),
        NamedUrl::new(affiliation_name.to_string(), affiliation_url.to_string()),
        status.to_string(),
        false,
    )
}

#[test]
fn ship_has_valid_traits() {
    let ship = create_test_ship(
        "Thousand Sunny",
        "Thousand Sunny",
        "The ship of the Straw Hat Pirates",
        "ship/thousand-sunny",
        "https://example.com/thousand-sunny.jpg",
        "Straw Hat Pirates",
        "crew/straw-hat-pirates",
        "Active",
    );

    assert_eq!(ship.get_path(), "ship/thousand-sunny");
    assert_eq!(ship.name, "Thousand Sunny");
    assert_eq!(ship.en_name, "Thousand Sunny");
    assert_eq!(ship.description, "The ship of the Straw Hat Pirates");
}

#[test]
fn ship_ordering() {
    let ship1 = create_test_ship(
        "Thousand Sunny",
        "Thousand Sunny",
        "The ship of the Straw Hat Pirates",
        "ship/thousand-sunny",
        "",
        "Straw Hat Pirates",
        "crew/straw-hat-pirates",
        "Active",
    );

    let ship2 = create_test_ship(
        "Going Merry",
        "Going Merry",
        "The first ship of the Straw Hat Pirates",
        "ship/going-merry",
        "",
        "Straw Hat Pirates",
        "crew/straw-hat-pirates",
        "Inactive",
    );

    assert!(ship1 > ship2);
    assert_ne!(ship1, ship2);
}
