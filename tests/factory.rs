use chershare::factory::{ChershareResourceFactory, FactoryError, ProvisioningOutcome};
use chershare::pricing::Pricing;
use chershare::resource::ResourceInitParams;

fn params() -> ResourceInitParams {
    ResourceInitParams {
        title: "Bike".to_string(),
        description: "City bike".to_string(),
        image_urls: vec![],
        contact: "bikes@example.org".to_string(),
        tags: vec!["bike".to_string()],
        pricing: Pricing::FlatRent { price_per_ms: 1 },
        min_duration_ms: 60_000,
    }
}

fn confirm(f: &mut ChershareResourceFactory, name: &str) {
    let outcome = f.create_resource_callback(name.to_string(), "owner.near".to_string(), params(), 5, true);
    assert!(matches!(outcome, ProvisioningOutcome::Confirmed(_)));
}

#[test]
fn taken_name_is_refused_before_anything_is_issued() {
    let mut f = ChershareResourceFactory::default();
    confirm(&mut f, "alpha");
    let r = f.create_resource(
        "alpha".to_string(),
        params(),
        "owner.near".to_string(),
        "factory.near".to_string(),
        1_000,
    );
    assert!(matches!(r, Err(FactoryError::NameTaken)));
    assert_eq!(f.assert_name_available(&"alpha".to_string()), Err(FactoryError::NameTaken));
}

#[test]
fn failed_provisioning_refunds_and_leaves_the_name_free() {
    let mut f = ChershareResourceFactory::default();
    let req = f
        .create_resource("beta".to_string(), params(), "payer.near".to_string(), "factory.near".to_string(), 777)
        .unwrap();
    let outcome = f.create_resource_callback(req.name, req.owner, req.init_params, req.deposit, false);
    match outcome {
        ProvisioningOutcome::Failed { name, refund_to, refund } => {
            assert_eq!(name, "beta");
            assert_eq!(refund_to, "payer.near");
            assert_eq!(refund, 777);
        }
        other => panic!("unexpected outcome {other:?}"),
    }
    assert!(!f.name_exists("beta".to_string()));
    assert!(!f.check_resource_contained(&"beta".to_string()));
    assert!(f
        .create_resource("beta".to_string(), params(), "payer.near".to_string(), "factory.near".to_string(), 1)
        .is_ok());
}

#[test]
fn provisioning_request_names_the_sub_account() {
    let f = ChershareResourceFactory::default();
    let req = f
        .create_resource("gamma".to_string(), params(), "me.near".to_string(), "factory.near".to_string(), 42)
        .unwrap();
    assert_eq!(req.name, "gamma");
    assert_eq!(req.resource_account_id, "gamma.factory.near");
    assert_eq!(req.owner, "me.near");
    assert_eq!(req.deposit, 42);
    assert_eq!(req.init_params.title, "Bike");
    assert!(!f.name_exists("gamma".to_string()));
}

#[test]
fn confirmed_provisioning_registers_the_name_once() {
    let mut f = ChershareResourceFactory::default();
    let outcome = f.create_resource_callback("delta".to_string(), "o.near".to_string(), params(), 9, true);
    match outcome {
        ProvisioningOutcome::Confirmed(c) => {
            assert_eq!(c.name, "delta");
            assert_eq!(c.owner, "o.near");
            assert_eq!(c.init_params.contact, "bikes@example.org");
        }
        other => panic!("unexpected outcome {other:?}"),
    }
    assert!(f.name_exists("delta".to_string()));
    assert!(!f.name_exists("delt".to_string()));
    let again = f.create_resource_callback("delta".to_string(), "o.near".to_string(), params(), 9, true);
    assert!(matches!(again, ProvisioningOutcome::Ignored));
    assert!(f.name_exists("delta".to_string()));
}

#[test]
fn malformed_sub_account_is_refused() {
    let f = ChershareResourceFactory::default();
    for bad in ["Alpha", "a b", "", "-x", "x-", "x__y", "ü"] {
        let r = f.create_resource(bad.to_string(), params(), "o.near".to_string(), "factory.near".to_string(), 1);
        assert!(matches!(r, Err(FactoryError::InvalidAccountId)), "{bad}");
    }
    let long = "a".repeat(60);
    let r = f.create_resource(long, params(), "o.near".to_string(), "factory.near".to_string(), 1);
    assert!(matches!(r, Err(FactoryError::InvalidAccountId)));
    let fits = "a".repeat(51);
    let r = f.create_resource(fits, params(), "o.near".to_string(), "factory.near".to_string(), 1);
    assert!(r.is_ok());
    for good in ["x", "a-b", "a_b", "r2d2", "sub.part"] {
        let r = f.create_resource(good.to_string(), params(), "o.near".to_string(), "factory.near".to_string(), 1);
        assert!(r.is_ok(), "{good}");
    }
}

#[test]
fn default_factory_greets_and_holds_nothing() {
    let f = ChershareResourceFactory::default();
    assert_eq!(f.get_test(), "hi!");
    assert!(!f.name_exists("alpha".to_string()));
}

#[test]
fn only_the_owner_hands_the_factory_on() {
    let mut f = ChershareResourceFactory::new("boss.near".to_string());
    assert_eq!(f.set_owner("eve.near".to_string(), 1, "eve.near".to_string()), Err(FactoryError::Unauthorized));
    assert_eq!(f.set_owner("boss.near".to_string(), 0, "new.near".to_string()), Err(FactoryError::Unauthorized));
    assert_eq!(f.set_owner("boss.near".to_string(), 1, "boss.near".to_string()), Err(FactoryError::SameOwner));
    assert_eq!(f.set_owner("boss.near".to_string(), 1, "new.near".to_string()), Ok(()));
    assert_eq!(f.set_owner("boss.near".to_string(), 1, "boss.near".to_string()), Err(FactoryError::Unauthorized));
    assert_eq!(f.set_owner("new.near".to_string(), 1, "boss.near".to_string()), Ok(()));
}

#[test]
fn stored_names_are_registered() {
    let mut f = ChershareResourceFactory::with_names(
        "boss.near".to_string(),
        vec!["alpha".to_string(), "beta".to_string()],
    );
    assert!(f.name_exists("alpha".to_string()));
    assert!(f.name_exists("beta".to_string()));
    assert!(!f.name_exists("gamma".to_string()));
    assert_eq!(f.get_test(), "hi!");
    let again = f.create_resource_callback("beta".to_string(), "o.near".to_string(), params(), 1, true);
    assert!(matches!(again, ProvisioningOutcome::Ignored));
    assert_eq!(f.set_owner("boss.near".to_string(), 1, "next.near".to_string()), Ok(()));
}
