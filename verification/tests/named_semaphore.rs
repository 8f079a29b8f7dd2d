use espresso_core::named_semaphore::{NamedSemaphore, NamedSemaphoreError};

#[test]
fn test_named_semaphore() {
    // Create a new semaphore with a maximum of 1 permit
    let mut semaphore = NamedSemaphore::new(1, None);

    // Try to acquire a permit for the key "test"
    let permit = semaphore.try_acquire("test");

    // Assert that the permit is Some
    assert!(permit.is_ok());

    // Try to acquire a permit for the key "test" again
    let permit2 = semaphore.try_acquire("test");

    // Assert that the permit is None
    assert!(permit2.is_err());

    // Hand back the first permit
    semaphore.release(permit.unwrap());

    // Try to acquire a permit for the key "test" again
    let permit3 = semaphore.try_acquire("test");

    // Assert that the permit is Some
    assert!(permit3.is_ok());

    // Hand back permit3
    semaphore.release(permit3.unwrap());

    // Make sure the semaphore is empty
    assert!(semaphore.is_empty());
}

#[test]
fn test_named_semaphore_with_max_total_permits() {
    // Create a new semaphore with a maximum of 1 permit
    let mut semaphore = NamedSemaphore::new(1, Some(2));

    // Try to acquire a permit for the key "test"
    let permit = semaphore.try_acquire("test");

    // Assert that the permit is Some
    assert!(permit.is_ok());

    // Try to acquire a permit for the key "test2"
    let permit2 = semaphore.try_acquire("test2");

    // Assert that the permit is Some
    assert!(permit2.is_ok());

    // Try to acquire a permit for the key "test3"
    let permit3 = semaphore.try_acquire("test3");

    // Assert that the permit is None
    assert!(permit3.is_err());

    // Hand back the first permit
    semaphore.release(permit.unwrap());

    // Try to acquire a permit for the key "test3" again
    let permit4 = semaphore.try_acquire("test3");

    // Assert that the permit is Some
    assert!(permit4.is_ok());

    // Make sure the total number of permits held is 2
    assert_eq!(semaphore.total_num_permits_held(), 2);

    // Hand back all permits (the refused one was never granted)
    semaphore.release(permit2.unwrap());
    semaphore.release(permit4.unwrap());

    // Make sure the semaphore is empty
    assert!(semaphore.is_empty());

    // Make sure the total number of permits is 0
    assert_eq!(semaphore.total_num_permits_held(), 0);
}

#[test]
fn named_semaphore_reports_which_limit() {
    let mut semaphore = NamedSemaphore::new(1, Some(1));
    let p = semaphore.try_acquire(1u64).unwrap();
    // global limit is checked first
    assert_eq!(semaphore.try_acquire(1u64).err(), Some(NamedSemaphoreError::GlobalLimitReached));
    assert_eq!(semaphore.try_acquire(2u64).err(), Some(NamedSemaphoreError::GlobalLimitReached));
    semaphore.release(p);
    let mut per_key = NamedSemaphore::new(2, None);
    let a = per_key.try_acquire(5u64).unwrap();
    let b = per_key.try_acquire(5u64).unwrap();
    assert_eq!(per_key.try_acquire(5u64).err(), Some(NamedSemaphoreError::PerKeyLimitReached));
    assert_eq!(per_key.total_num_permits_held(), 2);
    per_key.release(a);
    assert!(!per_key.is_empty());
    per_key.release(b);
    assert!(per_key.is_empty());
}

#[test]
fn named_semaphore_refused_key_stays_tracked() {
    let mut semaphore = NamedSemaphore::new(1, Some(0));
    assert!(semaphore.try_acquire(3u64).is_err());
    assert_eq!(semaphore.total_num_permits_held(), 0);
    // the key was recorded although no permit was granted
    assert!(!semaphore.is_empty());
}

#[test]
fn named_semaphore_release_undoes_acquire() {
    let mut semaphore = NamedSemaphore::new(3, Some(10));
    let a = semaphore.try_acquire(1u64).unwrap();
    let before = semaphore.total_num_permits_held();
    let b = semaphore.try_acquire(2u64).unwrap();
    assert_eq!(semaphore.total_num_permits_held(), before + 1);
    semaphore.release(b);
    assert_eq!(semaphore.total_num_permits_held(), before);
    semaphore.release(a);
    assert_eq!(semaphore.total_num_permits_held(), 0);
}
