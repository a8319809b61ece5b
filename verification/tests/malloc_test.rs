use pipevec::fvec::FVec;

#[test]
pub fn malloc_write_and_read() {
    let size = 1000000usize;
    let mut data = FVec::<i32>::new(size);
    let mut counter = 0usize;
    while counter != size {
        data.push(counter as i32);
        counter += 1;
    }

    for i in 0..size {
        assert_eq!(data[i], i as i32);
    }
}

struct TestStruct<T> {
    a: T,
    b: T,
    c: T,
}

#[test]
pub fn malloc_write_and_read_struct() {
    let size = 1000000usize;
    type InType = usize;
    let mut data = FVec::<TestStruct<InType>>::new(size);
    let mut counter = 0usize;
    while counter != size {
        data.push(TestStruct { a: counter as InType, b: 0, c: 0 });
        let cell = data.get_mut(counter);
        cell.b = counter as InType + 1;
        cell.c = counter as InType + 2;
        counter += 1;
    }

    for i in 0..size {
        assert_eq!(data[i].a, i as InType);
        assert_eq!(data[i].b, i as InType + 1);
        assert_eq!(data[i].c, i as InType + 2);
    }
}

#[test]
pub fn malloc_write_and_read_struct2() {
    let size = 1000000usize;
    type InType = usize;
    let mut data = FVec::<TestStruct<InType>>::new(size);
    let mut counter = 0usize;
    while counter != size {
        let new_struct = TestStruct {
            a: counter as InType,
            b: counter as InType + 1,
            c: counter as InType + 2,
        };
        data.push(new_struct);
        counter += 1;
    }

    for i in 0..size {
        assert_eq!(data[i].a, i as InType);
        assert_eq!(data[i].b, i as InType + 1);
        assert_eq!(data[i].c, i as InType + 2);
    }
}
