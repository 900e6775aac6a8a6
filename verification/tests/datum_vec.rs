use delta_render::repr::datum::Datum;
use delta_render::repr::datum_vec::DatumVec;
use delta_render::repr::row::Row;

#[test]
fn datum_vec_borrow_starts_empty() {
    let mut d = DatumVec::new();
    assert_eq!(d.borrow().len(), 0);
}

#[test]
fn datum_vec_borrow_with_row_and_reuse() {
    let mut d = DatumVec::new();

    let r = Row::pack_slice(&[Datum::Int32(7), Datum::Dummy]);

    {
        let borrow = d.borrow_with(&r);
        assert_eq!(borrow.len(), 2);
        assert_eq!(borrow[0], Datum::Int32(7));
        assert_eq!(borrow[1], Datum::Dummy);
    }

    {
        let r2 = Row::pack_slice(&[Datum::Int64(-9)]);
        let mut borrow = d.borrow();
        assert_eq!(borrow.len(), 0);
        borrow.extend(r.unpack());
        borrow.extend(r2.unpack());
        assert_eq!(borrow.len(), 3);
        assert_eq!(borrow[2], Datum::Int64(-9));
    }
}

#[test]
fn datum_vec_borrow_with_limit() {
    let mut d = DatumVec::new();
    let r = Row::pack_slice(&[Datum::Int32(1), Datum::Int32(2), Datum::Int32(3)]);
    {
        let borrow = d.borrow_with_limit(&r, 2);
        assert_eq!(borrow.len(), 2);
        assert_eq!(borrow[1], Datum::Int32(2));
    }
    {
        let borrow = d.borrow_with_limit(&r, 0);
        assert_eq!(borrow.len(), 0);
    }
    {
        let borrow = d.borrow_with_limit(&r, 10);
        assert_eq!(borrow.len(), 3);
        assert_eq!(borrow[2], Datum::Int32(3));
    }
}
