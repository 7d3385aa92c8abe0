use ledger_dht::key::Key;
use ledger_dht::node::Node;
use ledger_dht::routing_table::RoutingTable;

#[test]
fn distance_to_self() {
    let node = Node::new("0.0.0.0".to_string(), 1432);
    let node2 = node.clone();

    let rt = RoutingTable::new(node.clone(), None);

    let index = rt.node_find_bucket_index(&node2);

    println!(
        "distance = {:?}, ,  index= {}",
        node.clone().id.distance(&node2.id),
        index
    );

    assert_eq!(255, index)
}

#[test]
fn get_k_closest_node() {
    let current = Node::new("0.0.0.0".to_string(), 1432);
    let contact = Node::new("1.1.1.1".to_string(), 1540);

    let nodes1 = [
        Node::new("0.0.0.0".to_string(), 1432),
        Node::new("0.25.0.0".to_string(), 5665),
        Node::new("127.0.0.1".to_string(), 87),
        Node::new("10.6.0.1".to_string(), 25),
        Node::new("0.0.0.0".to_string(), 78),
        Node::new("1.1.1.1".to_string(), 1540),
        Node::new("2.0.0.0".to_string(), 1540),
        Node::new("8.8.8.8".to_string(), 9635),
        Node::new("8.0.0.8".to_string(), 963),
        Node::new("1.1.8.8".to_string(), 35),
        Node::new("125.0.8.8".to_string(), 635),
        Node::new("123.8.8.8".to_string(), 951),
        Node::new("8.8.47.8".to_string(), 7855),
        Node::new(
            "fg9sdg48fds6f8dg51dfsg4dfgd4f1gdgfdsgfdg45dfg5dfgdggdfgsdfgdfgdfsgdfgsd".to_string(),
            1285,
        ),
        Node::new("2".to_string(), 5665),
        Node::new("3".to_string(), 7835),
        Node::new("4".to_string(), 965),
        Node::new("5".to_string(), 6452),
        Node::new("8.7.8.8".to_string(), 485),
        Node::new("8.4.8.8".to_string(), 986),
        Node::new("8.4.8.8".to_string(), 123),
        Node::new("8.8.0.8".to_string(), 021),
        Node::new("125.125.152.2".to_string(), 021),
        Node::new("rest".to_string(), 021),
        Node::new("test".to_string(), 021),
        Node::new("ap".to_string(), 021),
        Node::new("dummy".to_string(), 021),
        Node::new("8".to_string(), 021),
    ]
    .to_vec();

    let mut rt = RoutingTable::new(current, None);

    for x in nodes1 {
        rt.update(x, None);
    }

    let cl = rt.get_closest_nodes(&contact, 5);
    for b in 0..rt.buckets.len() {
        println!("{} = {:?}", b, rt.buckets[b]);
    }
    for x in cl.clone() {
        println!(
            "closest {:?} {:?} {}",
            x.0,
            Key { 0: x.1 },
            RoutingTable::new(contact.clone(), None).node_find_bucket_index(&x.0)
        );
    }

    assert_eq!(cl.len(), 5)
}
