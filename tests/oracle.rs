use perpl_core::{LinkOraclePrice, Oracle, OraclePrice};

fn feed(price: u64, publish_time: i64) -> LinkOraclePrice {
    LinkOraclePrice { price, conf: 7, expo: -8, publish_time }
}

#[test]
fn feed_price_maps_field_for_field() {
    let p = OraclePrice::from(LinkOraclePrice { price: 123, conf: 4, expo: -6, publish_time: 99 });
    assert_eq!(p, OraclePrice { price: 123, conf: 4, exponent: -6, timestamp: 99 });
}

#[test]
fn second_update_overwrites_first() {
    let asset = [3u8; 32];
    let mut o = Oracle::new();
    o.update_price(asset, feed(100, 1));
    o.update_price(asset, feed(200, 2));
    assert_eq!(o.prices.len(), 1);
    assert_eq!(o.get(&asset), Some(OraclePrice { price: 200, conf: 7, exponent: -8, timestamp: 2 }));
}

#[test]
fn assets_are_kept_apart() {
    let a = [1u8; 32];
    let mut b = [1u8; 32];
    b[31] = 2;
    let mut o = Oracle::new();
    assert_eq!(o.get(&a), None);
    o.update_price(a, feed(10, 1));
    o.update_price(b, feed(20, 1));
    o.update_price(a, feed(30, 2));
    assert_eq!(o.prices.len(), 2);
    assert_eq!(o.get(&a).unwrap().price, 30);
    assert_eq!(o.get(&b).unwrap().price, 20);
    assert_eq!(o.get(&[9u8; 32]), None);
}
