use std::str::FromStr;

use matching_engine::models::decimal::Decimal;
use matching_engine::models::models::Order;
use matching_engine::models::types::{
    deserialize_order_status, deserialize_order_type, deserialize_side,
    deserialize_time_in_force_type, serialize_order_status, serialize_order_type, serialize_side,
    serialize_time_in_force_type, OrderStatus, OrderType, Side, TimeInForceType,
};

fn dec(text: &str) -> Decimal {
    let d = rust_decimal::Decimal::from_str(text).unwrap();
    Decimal::new(d.mantissa(), d.scale()).unwrap()
}

fn text(d: Decimal) -> String {
    rust_decimal::Decimal::from_i128_with_scale(d.mantissa(), d.scale()).to_string()
}

fn to_json(order: &Order) -> String {
    let mut fields = serde_json::Map::new();
    fields.insert("id".to_string(), serde_json::Value::from(order.id));
    fields.insert("created_at".to_string(), serde_json::Value::from(order.created_at));
    fields.insert("product_id".to_string(), serde_json::Value::from(order.product_id.clone()));
    fields.insert("user_id".to_string(), serde_json::Value::from(order.user_id));
    fields.insert("client_oid".to_string(), serde_json::Value::from(order.client_oid.clone()));
    fields.insert("price".to_string(), serde_json::Value::from(text(order.price)));
    fields.insert("size".to_string(), serde_json::Value::from(text(order.size)));
    fields.insert("funds".to_string(), serde_json::Value::from(text(order.funds)));
    fields.insert(
        "type".to_string(),
        serde_json::Value::from(serialize_order_type(&order.order_type)),
    );
    fields.insert("side".to_string(), serde_json::Value::from(serialize_side(&order.side)));
    fields.insert(
        "time_in_force".to_string(),
        serde_json::Value::from(serialize_time_in_force_type(&order.time_in_force)),
    );
    fields.insert(
        "status".to_string(),
        serde_json::Value::from(serialize_order_status(&order.status)),
    );
    serde_json::Value::Object(fields).to_string()
}

fn from_json(string: &str) -> Order {
    let v: serde_json::Value = serde_json::from_str(string).unwrap();
    Order {
        id: v["id"].as_u64().unwrap(),
        created_at: v["created_at"].as_u64().unwrap(),
        product_id: v["product_id"].as_str().unwrap().to_string(),
        user_id: v["user_id"].as_u64().unwrap(),
        client_oid: v["client_oid"].as_str().unwrap().to_string(),
        price: dec(v["price"].as_str().unwrap()),
        size: dec(v["size"].as_str().unwrap()),
        funds: dec(v["funds"].as_str().unwrap()),
        order_type: deserialize_order_type(v["type"].as_str().unwrap()).unwrap(),
        side: deserialize_side(v["side"].as_str().unwrap()).unwrap(),
        time_in_force: deserialize_time_in_force_type(v["time_in_force"].as_str().unwrap())
            .unwrap(),
        status: deserialize_order_status(v["status"].as_str().unwrap()).unwrap(),
    }
}

#[test]
fn test_serialize_order() {
    let order = Order {
        id: 1,
        created_at: 1695783003020967000,
        product_id: "BTC-USD".to_string(),
        user_id: 1,
        client_oid: "".to_string(),
        price: dec(&*"1000.00".to_string()),
        size: dec(&*"3.00".to_string()),
        funds: Decimal::zero(),
        order_type: OrderType::OrderTypeLimit,
        side: Side::SideBuy,
        time_in_force: TimeInForceType::GoodTillCanceled,
        status: OrderStatus::OrderStatusNew,
    };

    let s = to_json(&order);
    println!("{}", s);
    let v: serde_json::Value = serde_json::from_str(&s).unwrap();
    assert_eq!(v["type"], "limit");
    assert_eq!(v["side"], "buy");
    assert_eq!(v["time_in_force"], "GTC");
    assert_eq!(v["status"], "new");
    assert_eq!(v["price"], "1000.00");
    assert_eq!(v["size"], "3.00");
    assert_eq!(v["created_at"], 1695783003020967000u64);
}

#[test]
fn test_deserialize_order() {
    let string = r#"{"id":1,"created_at":1695783003020967000,"product_id":"BTC-USD","user_id":1,"client_oid":"","price":"1000.00","size":"3.00","funds":"0","type":"limit","side":"buy","time_in_force":"GTC","status":"new"}"#;
    let o: Order = from_json(string);

    println!("{:?}", o);
    assert_eq!(o.id, 1);
    assert_eq!(o.created_at, 1695783003020967000);
    assert_eq!(o.product_id, "BTC-USD");
    assert_eq!((o.price.mantissa(), o.price.scale()), (100000, 2));
    assert_eq!((o.size.mantissa(), o.size.scale()), (300, 2));
    assert!(o.funds.is_zero());
    assert_eq!(o.order_type, OrderType::OrderTypeLimit);
    assert_eq!(o.side, Side::SideBuy);
    assert_eq!(o.time_in_force, TimeInForceType::GoodTillCanceled);
    assert_eq!(o.status, OrderStatus::OrderStatusNew);
}
