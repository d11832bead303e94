use cirrus::context::{
    ContextWithBitXor, ContextWithCreate, ContextWithCreateByRef, ContextWithStorage,
    ContextWithStorageByRef, ContextWithValue, HasError, SharedContext, StorageAddressBit,
};
use std::cell::Cell;
use std::convert::Infallible;

struct TypedStorageContext;

impl HasError for TypedStorageContext {
    type Error = Infallible;
}

impl ContextWithValue<bool> for TypedStorageContext {
    type Wrapped = bool;
}

impl ContextWithValue<u16> for TypedStorageContext {
    type Wrapped = u16;
}

impl ContextWithStorage<u16> for TypedStorageContext {
    type Storage = [u16];

    fn storage_read(
        &mut self,
        storage: &mut Self::Storage,
        address: &[StorageAddressBit<bool>],
    ) -> Result<u16, Self::Error> {
        let index = address
            .iter()
            .enumerate()
            .fold(0usize, |index, (bit, value)| {
                index | ((value.wire as usize) << bit)
            });
        Ok(storage[index])
    }

    fn storage_write(
        &mut self,
        storage: &mut Self::Storage,
        address: &[StorageAddressBit<bool>],
        value: u16,
    ) -> Result<(), Self::Error> {
        let index = address
            .iter()
            .enumerate()
            .fold(0usize, |index, (bit, value)| {
                index | ((value.wire as usize) << bit)
            });
        storage[index] = value;
        Ok(())
    }
}

struct CellStorageContext;

impl HasError for CellStorageContext {
    type Error = Infallible;
}

impl ContextWithValue<bool> for CellStorageContext {
    type Wrapped = bool;
}

impl ContextWithValue<u16> for CellStorageContext {
    type Wrapped = u16;
}

impl ContextWithCreate<bool> for CellStorageContext {
    fn create(&mut self, val: bool) -> Result<bool, Self::Error> {
        Ok(val)
    }
}

impl ContextWithCreateByRef<bool> for CellStorageContext {
    fn create_by_ref(&self, val: bool) -> Result<bool, Self::Error> {
        Ok(val)
    }
}

impl ContextWithStorage<u16> for CellStorageContext {
    type Storage = [Cell<u16>];

    fn storage_read(
        &mut self,
        storage: &mut Self::Storage,
        address: &[StorageAddressBit<bool>],
    ) -> Result<u16, Self::Error> {
        self.storage_read_by_ref(storage, address)
    }

    fn storage_write(
        &mut self,
        storage: &mut Self::Storage,
        address: &[StorageAddressBit<bool>],
        value: u16,
    ) -> Result<(), Self::Error> {
        self.storage_write_by_ref(storage, address, value)
    }
}

impl ContextWithStorageByRef<u16> for CellStorageContext {
    fn storage_read_by_ref(
        &self,
        storage: &Self::Storage,
        address: &[StorageAddressBit<bool>],
    ) -> Result<u16, Self::Error> {
        let index = address
            .iter()
            .enumerate()
            .fold(0usize, |index, (bit, value)| {
                index | ((value.wire as usize) << bit)
            });
        Ok(storage[index].get())
    }

    fn storage_write_by_ref(
        &self,
        storage: &Self::Storage,
        address: &[StorageAddressBit<bool>],
        value: u16,
    ) -> Result<(), Self::Error> {
        let index = address
            .iter()
            .enumerate()
            .fold(0usize, |index, (bit, value)| {
                index | ((value.wire as usize) << bit)
            });
        storage[index].set(value);
        Ok(())
    }
}

#[test]
fn storage_is_generic_and_external_to_its_context() {
    let mut context = TypedStorageContext;
    let mut storage = [0u16; 4];
    let address = [
        StorageAddressBit {
            wire: true,
            known: Some(true),
        },
        StorageAddressBit {
            wire: false,
            known: Some(false),
        },
    ];
    context
        .storage_write(&mut storage, &address, 0xbeef)
        .unwrap();
    assert_eq!(context.storage_read(&mut storage, &address), Ok(0xbeef));
    assert_eq!(storage, [0, 0xbeef, 0, 0]);
}

#[test]
fn unit_context_shared_reference_create_xor_storage() {
    let context = ();
    let mut shared = &context;
    assert_eq!(shared.create(true), Ok(true));
    assert_eq!(shared.bitxor(true, false), Ok(true));
    // Dense `[bool]` cells need exclusive `&mut [bool]`, available through
    // the `&mut ()` blanket rather than `ContextWithStorageByRef`.
    let mut host = ();
    let mut storage = [false, false, false, false];
    let address = [StorageAddressBit {
        wire: true,
        known: Some(true),
    }];
    host.storage_write(&mut storage, &address, true).unwrap();
    assert_eq!(host.storage_read(&mut storage, &address), Ok(true));
    assert_eq!(storage, [false, true, false, false]);
}

#[test]
fn shared_context_remaps_storage_to_a_reference() {
    let context = CellStorageContext;
    let storage = [Cell::new(0), Cell::new(0), Cell::new(0), Cell::new(0)];
    let mut shared = SharedContext(&context);
    let mut slot: &[Cell<u16>] = &storage;
    let address = [
        StorageAddressBit {
            wire: true,
            known: Some(true),
        },
        StorageAddressBit {
            wire: false,
            known: Some(false),
        },
    ];
    shared.storage_write(&mut slot, &address, 0xbeef).unwrap();
    assert_eq!(shared.storage_read(&mut slot, &address), Ok(0xbeef));
    assert_eq!(shared.create(true), Ok(true));
    assert_eq!(storage[1].get(), 0xbeef);
    fn assert_storage_is_ref<'a, C>(_: &SharedContext<'a, C>)
    where
        SharedContext<'a, C>: ContextWithStorage<u16, Storage = &'a C::Storage>,
        C: ContextWithStorageByRef<u16>,
    {
    }
    assert_storage_is_ref(&shared);
}
