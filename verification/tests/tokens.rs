use wallet_export::output::{
    operating_mode, output_format, prints_document, snapshot_file_name, writes_file, OperatingMode,
    OutputFormat,
};
use wallet_export::resolver::{discover, parse_catalog, read_entry, token_id_of_entry};
use wallet_export::wallet::{build_wallet, project, summary, ERC20Balance, Totals};
use wallet_export::{Adapter, ParseError, TokenInfo, TokenTable, ERC1155};

const RUNE_CONTRACT: &str = "0xc25970724f032af21d801978c73653c440cf787c";
const CHARM_CONTRACT: &str = "0x814a9c959a3ef6ca44b5e2349e3bba9845393947";

fn entry(standard: &str, address: &str, token_id: &str, id: &str) -> String {
    format!(
        "{{\"item\": {{\"tokenStandard\": \"{}\", \"tokenAddress\": \"{}\", \"tokenId\": \"{}\", \
         \"name\": \"Name {}\", \"id\": \"{}\", \"category\": \"cat\", \"rarity\": \"rare\", \
         \"description\": \"desc\", \"imageUrl\": \"https://img/{}\"}}}}",
        standard, address, token_id, id, id, id
    )
}

fn catalog_of(entries: &[String]) -> String {
    format!("{{\"_items\": [{}]}}", entries.join(", "))
}

fn token(token_id: u64, id: &str, balance: i64) -> TokenInfo {
    TokenInfo {
        erc: ERC1155::Rune,
        token_id,
        name: format!("Name {}", id),
        id: id.to_string(),
        category: "cat".to_string(),
        rarity: "rare".to_string(),
        description: "desc".to_string(),
        image_url: format!("https://img/{}", id),
        balance,
    }
}

fn ids_and_balances(table: &TokenTable) -> Vec<(u64, String, i64)> {
    (0..table.len())
        .map(|i| {
            let t = table.token_at(i).unwrap();
            (t.token_id, t.id.clone(), t.balance)
        })
        .collect()
}

#[test]
fn contract_addresses_and_catalogs_of_the_kinds() {
    assert_eq!(ERC1155::Rune.contract_address(), RUNE_CONTRACT);
    assert_eq!(ERC1155::Charm.contract_address(), CHARM_CONTRACT);
    assert_eq!(ERC1155::Rune.catalog_path(), "/origin/game/listRunes");
    assert_eq!(ERC1155::Charm.catalog_path(), "/origin/game/listCharms");
    let adapter = Adapter::new();
    assert_eq!(adapter.catalog_url(ERC1155::Rune), "https://ronin.rest/origin/game/listRunes");
    assert_eq!(adapter.catalog_url(ERC1155::Charm), "https://ronin.rest/origin/game/listCharms");
    let other = Adapter { host: "http://index.test".to_string(), retry: adapter.retry };
    assert_eq!(other.catalog_url(ERC1155::Rune), "http://index.test/origin/game/listRunes");
}

#[test]
fn discovery_keeps_only_the_configured_contract() {
    let body = catalog_of(&[
        entry("ERC1155", RUNE_CONTRACT, "1", "rune_a"),
        entry("ERC1155", CHARM_CONTRACT, "2", "charm_b"),
        entry("ERC1155", "0xC25970724F032AF21D801978C73653C440CF787C", "3", "rune_c"),
        entry("ERC1155", "0x0000000000000000000000000000000000000000", "4", "other"),
    ]);
    let runes = parse_catalog(&body, ERC1155::Rune).unwrap();
    assert_eq!(
        ids_and_balances(&runes),
        vec![(1, "rune_a".to_string(), 0), (3, "rune_c".to_string(), 0)]
    );
    let charms = parse_catalog(&body, ERC1155::Charm).unwrap();
    assert_eq!(ids_and_balances(&charms), vec![(2, "charm_b".to_string(), 0)]);
}

#[test]
fn discovery_fills_every_field_of_the_descriptor() {
    let body = catalog_of(&[entry("ERC1155", RUNE_CONTRACT, "42", "rune_x")]);
    let table = parse_catalog(&body, ERC1155::Rune).unwrap();
    assert_eq!(table.len(), 1);
    let t = table.token_at(0).unwrap();
    assert_eq!(t.erc, ERC1155::Rune);
    assert_eq!(t.token_id, 42);
    assert_eq!(t.name, "Name rune_x");
    assert_eq!(t.id, "rune_x");
    assert_eq!(t.category, "cat");
    assert_eq!(t.rarity, "rare");
    assert_eq!(t.description, "desc");
    assert_eq!(t.image_url, "https://img/rune_x");
    assert_eq!(t.balance, 0);
}

#[test]
fn discovery_skips_other_standards_and_missing_or_zero_ids() {
    let no_id = format!(
        "{{\"item\": {{\"tokenStandard\": \"ERC1155\", \"tokenAddress\": \"{}\"}}}}",
        RUNE_CONTRACT
    );
    let numeric_id = format!(
        "{{\"item\": {{\"tokenStandard\": \"ERC1155\", \"tokenAddress\": \"{}\", \"tokenId\": 5}}}}",
        RUNE_CONTRACT
    );
    let body = catalog_of(&[
        entry("ERC721", RUNE_CONTRACT, "1", "a"),
        entry("erc1155", RUNE_CONTRACT, "2", "b"),
        entry("ERC1155", RUNE_CONTRACT, "0", "c"),
        entry("ERC1155", RUNE_CONTRACT, "+000", "d"),
        no_id,
        numeric_id,
        "{\"other\": 1}".to_string(),
        "{\"item\": {\"tokenStandard\": 1155}}".to_string(),
        "17".to_string(),
        entry("ERC1155", RUNE_CONTRACT, "+07", "e"),
    ]);
    let table = parse_catalog(&body, ERC1155::Rune).unwrap();
    assert_eq!(ids_and_balances(&table), vec![(7, "e".to_string(), 0)]);
}

#[test]
fn discovery_lets_the_last_duplicate_win() {
    let body = catalog_of(&[
        entry("ERC1155", RUNE_CONTRACT, "1", "first"),
        entry("ERC1155", RUNE_CONTRACT, "2", "second"),
        entry("ERC1155", RUNE_CONTRACT, "1", "third"),
    ]);
    let table = parse_catalog(&body, ERC1155::Rune).unwrap();
    assert_eq!(
        ids_and_balances(&table),
        vec![(1, "third".to_string(), 0), (2, "second".to_string(), 0)]
    );
}

#[test]
fn catalog_faults_are_reported() {
    assert_eq!(parse_catalog("{", ERC1155::Rune).err(), Some(ParseError::InvalidJson));
    assert_eq!(parse_catalog("{\"items\": []}", ERC1155::Rune).err(), Some(ParseError::MissingField));
    assert_eq!(parse_catalog("{\"_items\": {}}", ERC1155::Rune).err(), Some(ParseError::NotAnArray));
    let no_address = catalog_of(&["{\"item\": {\"tokenStandard\": \"ERC1155\"}}".to_string()]);
    assert_eq!(parse_catalog(&no_address, ERC1155::Rune).err(), Some(ParseError::NotText));
    let bad_id = catalog_of(&[entry("ERC1155", RUNE_CONTRACT, "12x", "a")]);
    assert_eq!(parse_catalog(&bad_id, ERC1155::Rune).err(), Some(ParseError::InvalidTokenId));
    let negative = catalog_of(&[entry("ERC1155", RUNE_CONTRACT, "-1", "a")]);
    assert_eq!(parse_catalog(&negative, ERC1155::Rune).err(), Some(ParseError::InvalidTokenId));
    let too_large = catalog_of(&[entry("ERC1155", RUNE_CONTRACT, "18446744073709551616", "a")]);
    assert_eq!(parse_catalog(&too_large, ERC1155::Rune).err(), Some(ParseError::InvalidTokenId));
    let no_fields = catalog_of(&[format!(
        "{{\"item\": {{\"tokenStandard\": \"ERC1155\", \"tokenAddress\": \"{}\", \"tokenId\": \"9\", \
         \"name\": \"n\"}}}}",
        RUNE_CONTRACT
    )]);
    assert_eq!(parse_catalog(&no_fields, ERC1155::Rune).err(), Some(ParseError::NotText));
}

#[test]
fn first_fault_ends_discovery() {
    let body = catalog_of(&[
        entry("ERC1155", RUNE_CONTRACT, "1", "a"),
        entry("ERC1155", RUNE_CONTRACT, "bad", "b"),
        "{\"item\": {\"tokenStandard\": \"ERC1155\"}}".to_string(),
    ]);
    assert_eq!(parse_catalog(&body, ERC1155::Rune).err(), Some(ParseError::InvalidTokenId));
    let largest = catalog_of(&[entry("ERC1155", RUNE_CONTRACT, "18446744073709551615", "max")]);
    let table = parse_catalog(&largest, ERC1155::Rune).unwrap();
    assert_eq!(ids_and_balances(&table), vec![(u64::MAX, "max".to_string(), 0)]);
}

#[test]
fn read_entry_and_discover_take_values() {
    let text = format!("[{}, {}]", entry("ERC1155", CHARM_CONTRACT, "8", "c8"), "{}");
    let doc: serde_json::Value = serde_json::from_str(&text).unwrap();
    let entries = doc.as_array().unwrap();
    let read = read_entry(&entries[0], ERC1155::Charm).unwrap().unwrap();
    assert_eq!((read.token_id, read.id.as_str(), read.erc), (8, "c8", ERC1155::Charm));
    assert!(read_entry(&entries[0], ERC1155::Rune).unwrap().is_none());
    assert!(read_entry(&entries[1], ERC1155::Charm).unwrap().is_none());
    let table = discover(entries, ERC1155::Charm).unwrap();
    assert_eq!(table.token_ids(), vec![8]);
}

#[test]
fn table_insert_find_and_set_balance() {
    let mut table = TokenTable::new();
    assert_eq!(table.len(), 0);
    table.insert(token(5, "five", 0));
    table.insert(token(9, "nine", 0));
    table.insert(token(5, "five again", 0));
    assert_eq!(table.token_ids(), vec![5, 9]);
    assert_eq!(table.token_at(1).map(|t| t.token_id), Some(9));
    assert!(table.token_at(2).is_none());
    assert_eq!(table.order, vec![5, 9]);
    assert_eq!(table.tokens.len(), 2);
    assert_eq!(table.get(5).map(|t| t.id.as_str()), Some("five again"));
    assert!(table.get(6).is_none());
    table.set_balance(9, 12);
    table.set_balance(6, 99);
    assert_eq!(
        ids_and_balances(&table),
        vec![(5, "five again".to_string(), 0), (9, "nine".to_string(), 12)]
    );
}

#[test]
fn minimal_is_token_identifier_and_balance_in_decimal() {
    assert_eq!(token(1001, "rune_3", 7).minimal(), ["1001".to_string(), "7".to_string()]);
    assert_eq!(token(3, "rune_3", 0).minimal(), ["3".to_string(), "0".to_string()]);
    assert_eq!(token(3, "rune_3", -12).minimal(), ["3".to_string(), "-12".to_string()]);
    assert_eq!(
        token(u64::MAX, "", i64::MIN).minimal(),
        ["18446744073709551615".to_string(), "-9223372036854775808".to_string()]
    );
    let changed = token(3, "rune_3", 0).with_balance(44);
    assert_eq!((changed.token_id, changed.balance, changed.id.as_str()), (3, 44, "rune_3"));
}

#[test]
fn token_id_of_entry_decides_on_plain_values() {
    assert_eq!(token_id_of_entry(RUNE_CONTRACT, Some("12"), ERC1155::Rune), Ok(Some(12)));
    assert_eq!(token_id_of_entry(RUNE_CONTRACT, Some("+12"), ERC1155::Rune), Ok(Some(12)));
    assert_eq!(token_id_of_entry(RUNE_CONTRACT, Some("0"), ERC1155::Rune), Ok(None));
    assert_eq!(token_id_of_entry(RUNE_CONTRACT, None, ERC1155::Rune), Ok(None));
    assert_eq!(token_id_of_entry(RUNE_CONTRACT, Some("12"), ERC1155::Charm), Ok(None));
    assert_eq!(token_id_of_entry(CHARM_CONTRACT, Some("12"), ERC1155::Charm), Ok(Some(12)));
    assert_eq!(token_id_of_entry(CHARM_CONTRACT, Some("bad"), ERC1155::Rune), Ok(None));
    assert_eq!(
        token_id_of_entry(RUNE_CONTRACT, Some("bad"), ERC1155::Rune),
        Err(ParseError::InvalidTokenId)
    );
    assert_eq!(
        token_id_of_entry(RUNE_CONTRACT, Some(""), ERC1155::Rune),
        Err(ParseError::InvalidTokenId)
    );
    assert_eq!(
        token_id_of_entry(RUNE_CONTRACT, Some("18446744073709551616"), ERC1155::Rune),
        Err(ParseError::InvalidTokenId)
    );
    assert_eq!(
        token_id_of_entry("0xC25970724F032AF21D801978C73653C440CF787C", Some("12"), ERC1155::Rune),
        Ok(None)
    );
}

#[test]
fn projection_drops_zero_and_keeps_seven() {
    let mut table = TokenTable::new();
    table.insert(token(1, "zero", 0));
    table.insert(token(2, "seven", 7));
    table.insert(token(3, "negative", -4));
    table.insert(token(4, "three", 3));
    let holdings = project(&table);
    assert_eq!(
        holdings.pairs,
        vec![["2".to_string(), "7".to_string()], ["4".to_string(), "3".to_string()]]
    );
    assert_eq!(holdings.total, 10);
}

#[test]
fn projection_total_does_not_overflow() {
    let mut table = TokenTable::new();
    table.insert(token(1, "a", i64::MAX));
    table.insert(token(2, "b", i64::MAX));
    let holdings = project(&table);
    assert_eq!(holdings.total, 2 * (i64::MAX as i128));
    assert_eq!(holdings.pairs.len(), 2);
}

#[test]
fn empty_wallet_has_every_category() {
    let address = wallet_export::normalize_address("ronin:3759468f9fd589665c8affbe52414ef77f863f72");
    let runes = parse_catalog(&catalog_of(&[]), ERC1155::Rune).unwrap();
    let mut charms =
        parse_catalog(&catalog_of(&[entry("ERC1155", CHARM_CONTRACT, "2", "c")]), ERC1155::Charm).unwrap();
    for id in charms.token_ids() {
        charms.set_balance(id, 0);
    }
    let fungible = vec![ERC20Balance { symbol: "RON".to_string(), balance: "0".to_string() }];
    let (wallet, totals) =
        build_wallet(address, fungible, Vec::new(), Vec::new(), Vec::new(), &runes, &charms);
    assert_eq!(wallet.wallet, "0x3759468f9fd589665c8affbe52414ef77f863f72");
    assert_eq!(wallet.fungible.len(), 1);
    assert_eq!(wallet.fungible[0].symbol, "RON");
    assert!(wallet.non_fungible.axies.is_empty());
    assert!(wallet.non_fungible.lands.is_empty());
    assert!(wallet.non_fungible.items.is_empty());
    assert!(wallet.non_fungible.runes.is_empty());
    assert!(wallet.non_fungible.charms.is_empty());
    assert_eq!((totals.runes, totals.charms), (0, 0));
}

#[test]
fn wallet_carries_lists_and_projections() {
    let mut runes = TokenTable::new();
    runes.insert(token(1, "r1", 0));
    runes.insert(token(2, "r2", 0));
    runes.set_balance(2, 5);
    let charms = TokenTable::new();
    let (wallet, totals) = build_wallet(
        "0xab".to_string(),
        Vec::new(),
        vec!["1".to_string(), "2".to_string()],
        vec!["-1,3".to_string()],
        Vec::new(),
        &runes,
        &charms,
    );
    assert_eq!(wallet.non_fungible.axies, vec!["1", "2"]);
    assert_eq!(wallet.non_fungible.lands, vec!["-1,3"]);
    assert_eq!(wallet.non_fungible.runes, vec![["2".to_string(), "5".to_string()]]);
    assert_eq!((totals.runes, totals.charms), (5, 0));
}

#[test]
fn output_choices() {
    assert_eq!(output_format(None), Some(OutputFormat::Stdout));
    assert_eq!(output_format(Some("stdout")), Some(OutputFormat::Stdout));
    assert_eq!(output_format(Some("file")), Some(OutputFormat::File));
    assert_eq!(output_format(Some("FILE")), None);
    assert_eq!(output_format(Some("")), None);
    assert_eq!(operating_mode(""), OperatingMode::Single);
    assert_eq!(operating_mode("wallets.txt"), OperatingMode::Bulk);
    assert!(writes_file(OutputFormat::File, OperatingMode::Single));
    assert!(writes_file(OutputFormat::Stdout, OperatingMode::Bulk));
    assert!(!writes_file(OutputFormat::Stdout, OperatingMode::Single));
    assert!(prints_document(OutputFormat::Stdout, OperatingMode::Single));
    assert!(!prints_document(OutputFormat::Stdout, OperatingMode::Bulk));
    assert!(!prints_document(OutputFormat::File, OperatingMode::Single));
    assert_eq!(snapshot_file_name("0xab"), "0xab.json");
}

#[test]
fn summary_lists_counts_and_totals() {
    let mut runes = TokenTable::new();
    runes.insert(token(2, "r2", 5));
    let charms = TokenTable::new();
    let (wallet, totals) = build_wallet(
        "0xab".to_string(),
        Vec::new(),
        vec!["1".to_string(), "2".to_string()],
        vec!["-1,3".to_string()],
        Vec::new(),
        &runes,
        &charms,
    );
    assert_eq!(
        summary(&wallet, totals),
        "\nResult:\n=================\nAxies: 2\nLands: 1\nItems: 0\nRunes: 5\nCharms: 0"
    );
    assert_eq!(
        summary(&wallet, Totals { runes: -3, charms: 12 }),
        "\nResult:\n=================\nAxies: 2\nLands: 1\nItems: 0\nRunes: -3\nCharms: 12"
    );
}

#[test]
fn table_well_formedness_is_tested() {
    let mut table = TokenTable::new();
    assert!(table.is_well_formed());
    table.insert(token(1, "a", 0));
    table.insert(token(2, "b", 0));
    assert!(table.is_well_formed());
    table.order.push(1);
    assert!(!table.is_well_formed());
    table.order.pop();
    assert!(table.is_well_formed());
    table.tokens.insert(3, token(3, "stray", 0));
    assert!(!table.is_well_formed());
    table.order.push(3);
    assert!(table.is_well_formed());
    table.tokens.insert(3, token(4, "misplaced", 0));
    assert!(!table.is_well_formed());
}

#[test]
fn resolve_sets_every_balance_in_order() {
    let mut table = TokenTable::new();
    table.insert(token(5, "five", 0));
    table.insert(token(9, "nine", 0));
    table.insert(token(7, "seven", 0));
    assert_eq!(table.token_ids(), vec![5, 9, 7]);
    assert!(table.resolve(&vec![50, 0, 70]));
    assert_eq!(
        ids_and_balances(&table),
        vec![(5, "five".to_string(), 50), (9, "nine".to_string(), 0), (7, "seven".to_string(), 70)]
    );
    assert_eq!(table.token_at(2).unwrap().image_url, "https://img/seven");
    assert!(!table.resolve(&vec![1, 2]));
    assert!(!table.resolve(&vec![1, 2, 3, 4]));
    assert_eq!(
        ids_and_balances(&table),
        vec![(5, "five".to_string(), 50), (9, "nine".to_string(), 0), (7, "seven".to_string(), 70)]
    );
    let mut empty = TokenTable::new();
    assert!(empty.resolve(&Vec::new()));
}

#[test]
fn id_list_holds_what_it_is_given() {
    let list = wallet_export::NFTIdList {
        address: "0xab".to_string(),
        contract: "0xcd".to_string(),
        items: Some(vec!["1".to_string()]),
    };
    assert_eq!(list.address, "0xab");
    assert_eq!(list.contract, "0xcd");
    assert_eq!(list.items, Some(vec!["1".to_string()]));
}
