use decaff::checkout::{next_step, Checkout, CheckoutError, CheckoutEvent};
use decaff::repository::LocalRepository;

fn local(meta: Option<&str>) -> LocalRepository {
    LocalRepository::new("template".to_string(), meta.map(str::to_string))
}

#[test]
fn checkout_of_head_asks_for_the_default_branch() {
    let repository = local(None);
    assert_eq!(
        repository.checkout(Checkout::Open, CheckoutEvent::Succeeded),
        Ok(Checkout::FindDefault)
    );
    assert_eq!(
        repository.checkout(
            Checkout::FindDefault,
            CheckoutEvent::Default(Some("refs/remotes/origin/main".to_string()))
        ),
        Ok(Checkout::Revparse("refs/remotes/origin/main".to_string()))
    );
    assert_eq!(
        repository.checkout(Checkout::FindDefault, CheckoutEvent::Default(None)),
        Ok(Checkout::Revparse("HEAD".to_string()))
    );
    assert_eq!(
        repository.checkout(Checkout::FindDefault, CheckoutEvent::Failed(String::new())),
        Ok(Checkout::Revparse("HEAD".to_string()))
    );
}

#[test]
fn checkout_of_another_selector_looks_up_head() {
    assert_eq!(
        local(Some("v1")).checkout(Checkout::Open, CheckoutEvent::Succeeded),
        Ok(Checkout::Revparse("HEAD".to_string()))
    );
}

#[test]
fn checkout_stops_where_the_repository_does_not_open() {
    let error = local(None)
        .checkout(Checkout::Open, CheckoutEvent::Failed("not a repository".to_string()))
        .unwrap_err();
    assert_eq!(error, CheckoutError::OpenFailed("not a repository".to_string()));
    assert_eq!(error.to_string(), "Failed to open the git repository.");
}

#[test]
fn checkout_follows_a_reference() {
    let repository = local(None);
    let parsed = CheckoutEvent::Parsed {
        object: "4a5a56fd".to_string(),
        reference: Some(Some("refs/heads/main".to_string())),
    };
    let step = repository.checkout(Checkout::Revparse("HEAD".to_string()), parsed).unwrap();
    assert_eq!(
        step,
        Checkout::CheckoutTree {
            object: "4a5a56fd".to_string(),
            reference: Some(Some("refs/heads/main".to_string()))
        }
    );
    let step = repository.checkout(step, CheckoutEvent::Succeeded).unwrap();
    assert_eq!(step, Checkout::SetHead("refs/heads/main".to_string()));
    let step = repository.checkout(step, CheckoutEvent::Succeeded).unwrap();
    assert_eq!(step, Checkout::Done);
    assert_eq!(repository.checkout(step, CheckoutEvent::Succeeded), Ok(Checkout::Done));
}

#[test]
fn checkout_detaches_head_at_a_commit() {
    let repository = local(None);
    let step = Checkout::CheckoutTree { object: "4a5a56fd".to_string(), reference: None };
    let step = repository.checkout(step, CheckoutEvent::Succeeded).unwrap();
    assert_eq!(step, Checkout::DetachHead("4a5a56fd".to_string()));
    assert_eq!(repository.checkout(step, CheckoutEvent::Succeeded), Ok(Checkout::Done));
}

#[test]
fn checkout_reports_each_failure() {
    let failed = || CheckoutEvent::Failed(String::new());
    let error = next_step("HEAD", Checkout::Revparse("v9".to_string()), failed()).unwrap_err();
    assert_eq!(error, CheckoutError::RevparseFailed("v9".to_string()));
    assert_eq!(error.to_string(), "Failed to parse revision string `v9`.");

    let tree = Checkout::CheckoutTree { object: "4a5a56fd".to_string(), reference: None };
    let error = next_step("HEAD", tree, failed()).unwrap_err();
    assert_eq!(error, CheckoutError::TreeCheckoutFailed);
    assert_eq!(error.to_string(), "Failed to checkout revision (tree).");

    let tree = Checkout::CheckoutTree { object: "4a5a56fd".to_string(), reference: Some(None) };
    let error = next_step("HEAD", tree, CheckoutEvent::Succeeded).unwrap_err();
    assert_eq!(error, CheckoutError::InvalidRefName);
    assert_eq!(error.to_string(), "Reference name is not a valid UTF-8 string.");

    let error = next_step("HEAD", Checkout::SetHead("main".to_string()), failed()).unwrap_err();
    assert_eq!(error, CheckoutError::SetHeadFailed("main".to_string()));
    assert_eq!(error.to_string(), "Failed to set HEAD to `main`.");

    let error = next_step("HEAD", Checkout::DetachHead("4a5a".to_string()), failed()).unwrap_err();
    assert_eq!(error, CheckoutError::DetachHeadFailed("4a5a".to_string()));
    assert_eq!(error.to_string(), "Failed to detach HEAD to `4a5a`.");
}

#[test]
fn checkout_counts_a_stray_event_as_failure() {
    assert_eq!(
        next_step("HEAD", Checkout::Open, CheckoutEvent::Default(None)),
        Err(CheckoutError::OpenFailed(String::new()))
    );
    assert_eq!(
        next_step("HEAD", Checkout::Revparse("v1".to_string()), CheckoutEvent::Succeeded),
        Err(CheckoutError::RevparseFailed("v1".to_string()))
    );
}
