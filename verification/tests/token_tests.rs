use token::Fungible;
use token::Holdable;
use token::Token;

#[test]
fn token_starts_with_one_holding() {
    let t = Token::new("alice", 5000000);
    assert_eq!(t.decimals(), &24);
    assert_eq!(t.supply, 5000000);
    assert_eq!(t.total_supply(), 5000000);
    assert_eq!(t.balance_of("alice"), &5000000);
    assert_eq!(t.balance_of("bob"), &0);
}

#[test]
fn token_allowance_reads_through_holding() {
    let mut t = Token::new("alice", 1000);
    assert_eq!(t.allowance("alice", "bob"), &0);
    assert_eq!(t.allowance("carol", "bob"), &0);
    assert!(t.holdings[0].1.increase_allowance("bob", 700).is_ok());
    assert_eq!(t.allowance("alice", "bob"), &700);
    assert_eq!(t.allowance("alice", "carol"), &0);
}

#[test]
fn token_total_supply_counts_free_supply_only() {
    let mut t = Token::new("alice", 800);
    assert!(t.holdings[0].1.increase_allowance("bob", 500).is_ok());
    assert!(t.holdings[0].1.lock("bob", 300).is_ok());
    assert_eq!(t.total_supply(), 500);
    assert_eq!(t.balance_of("alice"), &500);
    assert_eq!(t.holdings[0].1.total_supply(), 800);
}
