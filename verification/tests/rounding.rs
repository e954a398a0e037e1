use trading_bot::arith::{add_opt, div_opt, mul_opt, sub_opt};
use trading_bot::decimal::Dec;
use trading_bot::figures::Rate;

fn dec(mantissa: i128, scale: u32) -> Option<Dec> {
    Dec::from_parts(mantissa, scale)
}

/// The parts of a number with the fewest decimal places.
fn parts(r: Option<Dec>) -> Option<(i128, u32)> {
    r.map(|d| {
        let (mut mantissa, mut scale) = (d.mantissa(), d.scale());
        while scale > 0 && mantissa % 10 == 0 {
            mantissa /= 10;
            scale -= 1;
        }
        (mantissa, scale)
    })
}

#[test]
fn sums_are_rounded_to_what_fits() {
    assert_eq!(
        parts(add_opt(dec(79228162514264337593543950335, 0), dec(1, 0))),
        None
    );
    assert_eq!(
        parts(add_opt(dec(79228162514264337593543950335, 0), dec(1, 1))),
        Some((79228162514264337593543950335, 0))
    );
    assert_eq!(
        parts(add_opt(dec(79228162514264337593543950335, 1), dec(5, 1))),
        Some((7922816251426433759354395034, 0))
    );
    assert_eq!(
        parts(add_opt(dec(79228162514264337593543950335, 1), dec(1, 1))),
        Some((7922816251426433759354395034, 0))
    );
    assert_eq!(
        parts(add_opt(dec(1, 28), dec(8, 0))),
        Some((8, 0))
    );
    assert_eq!(
        parts(add_opt(dec(-79228162514264337593543950335, 1), dec(-6, 1))),
        Some((-7922816251426433759354395034, 0))
    );
    assert_eq!(
        parts(add_opt(dec(-5, 12), dec(604462909807314587353087, 2))),
        Some((604462909807314587353087, 2))
    );
}

#[test]
fn differences_are_rounded_to_what_fits() {
    assert_eq!(
        parts(sub_opt(dec(79228162514264337593543950335, 0), dec(-1, 0))),
        None
    );
    assert_eq!(
        parts(sub_opt(dec(8, 0), dec(1, 28))),
        Some((8, 0))
    );
    assert_eq!(
        parts(sub_opt(dec(5, 0), dec(5, 0))),
        Some((0, 0))
    );
    assert_eq!(
        parts(sub_opt(dec(-1098524073332020107, 14), dec(19, 18))),
        Some((-10985240733320201070019, 18))
    );
    assert_eq!(
        parts(sub_opt(dec(22219099052219256636532, 10), dec(89999999999999, 24))),
        Some((222190990522192566365311, 11))
    );
    assert_eq!(
        parts(sub_opt(dec(1, 2), dec(-16387, 0))),
        Some((1638701, 2))
    );
    assert_eq!(
        parts(sub_opt(dec(543265612312591, 7), dec(1001, 23))),
        Some((5432656123125909999999999999, 20))
    );
    assert_eq!(
        parts(sub_opt(dec(2305843009213693951, 10), dec(292721888596745, 22))),
        Some((23058430092136936582781114033, 20))
    );
    assert_eq!(
        parts(sub_opt(dec(35184372088833, 25), dec(-96232166642806143507479, 22))),
        Some((96232166642841327879567833, 25))
    );
    assert_eq!(
        parts(sub_opt(dec(-18446744073709551615, 20), dec(10000000000000000000000000000, 28))),
        Some((-118446744073709551615, 20))
    );
    assert_eq!(
        parts(sub_opt(dec(6713460608654927082172289523, 24), dec(17508807851080295513, 7))),
        Some((-17508807783945689426450729178, 16))
    );
}

#[test]
fn products_are_rounded_to_what_fits() {
    assert_eq!(
        parts(mul_opt(dec(15, 28), dec(1, 1))),
        Some((2, 28))
    );
    assert_eq!(
        parts(mul_opt(dec(25, 28), dec(1, 1))),
        Some((2, 28))
    );
    assert_eq!(
        parts(mul_opt(dec(-25, 28), dec(1, 1))),
        Some((-2, 28))
    );
    assert_eq!(
        parts(mul_opt(dec(35, 28), dec(1, 1))),
        Some((4, 28))
    );
    assert_eq!(
        parts(mul_opt(dec(79228162514264337593543950335, 0), dec(10, 0))),
        None
    );
    assert_eq!(
        parts(mul_opt(dec(79228162514264337593543950335, 1), dec(10, 0))),
        Some((79228162514264337593543950335, 0))
    );
    assert_eq!(
        parts(mul_opt(dec(100000000000000, 14), dec(1000000000000000, 14))),
        Some((10, 0))
    );
    assert_eq!(
        parts(mul_opt(dec(79228162514264337593543950334, 28), dec(15, 1))),
        Some((1188422437713965063903159255, 26))
    );
    assert_eq!(
        parts(mul_opt(dec(1, 20), dec(1, 20))),
        Some((0, 0))
    );
    assert_eq!(
        parts(mul_opt(dec(10000000000, 1), dec(-4294967298, 14))),
        Some((-4294967298, 5))
    );
    assert_eq!(
        parts(mul_opt(dec(-12083, 18), dec(6445272445645, 4))),
        Some((-77878226960728535, 22))
    );
    assert_eq!(
        parts(mul_opt(dec(-801, 10), dec(5, 11))),
        Some((-4005, 21))
    );
    assert_eq!(
        parts(mul_opt(dec(-262144, 8), dec(-45, 26))),
        Some((12, 28))
    );
    assert_eq!(
        parts(mul_opt(dec(254965440027767820678032641, 22), dec(7, 1))),
        Some((1784758080194374744746228487, 23))
    );
    assert_eq!(
        parts(mul_opt(dec(2000001, 2), dec(1199771313208029029854914254, 9))),
        Some((23995438261873712677388583629, 6))
    );
    assert_eq!(
        parts(mul_opt(dec(-4951760157141521099596496899, 13), dec(-14, 24))),
        Some((69324642199981295394, 28))
    );
    assert_eq!(
        parts(mul_opt(dec(2000000, 4), dec(8796093022210, 15))),
        Some((1759218604442, 12))
    );
}

#[test]
fn quotients_are_rounded_to_what_fits() {
    assert_eq!(
        parts(div_opt(dec(1, 0), dec(3, 0))),
        Some((3333333333333333333333333333, 28))
    );
    assert_eq!(
        parts(div_opt(dec(2, 0), dec(3, 0))),
        Some((6666666666666666666666666667, 28))
    );
    assert_eq!(
        parts(div_opt(dec(-2, 0), dec(3, 0))),
        Some((-6666666666666666666666666667, 28))
    );
    assert_eq!(
        parts(div_opt(dec(1, 0), dec(7, 0))),
        Some((1428571428571428571428571429, 28))
    );
    assert_eq!(
        parts(div_opt(dec(10000000000000000000000000000, 0), dec(3, 0))),
        Some((33333333333333333333333333333, 1))
    );
    assert_eq!(
        parts(div_opt(dec(1, 28), dec(2, 0))),
        Some((0, 0))
    );
    assert_eq!(
        parts(div_opt(dec(3, 28), dec(2, 0))),
        Some((2, 28))
    );
    assert_eq!(
        parts(div_opt(dec(5, 28), dec(2, 0))),
        Some((2, 28))
    );
    assert_eq!(
        parts(div_opt(dec(79228162514264337593543950335, 0), dec(1, 1))),
        None
    );
    assert_eq!(
        parts(div_opt(dec(79228162514264337593543950335, 28), dec(79228162514264337593543950335, 28))),
        Some((1, 0))
    );
    assert_eq!(
        parts(div_opt(dec(0, 5), dec(7, 0))),
        Some((0, 0))
    );
    assert_eq!(
        parts(div_opt(dec(7, 0), dec(0, 0))),
        None
    );
    assert_eq!(
        parts(div_opt(dec(585501123531196534, 25), dec(73786976294838206464, 5))),
        Some((793502, 28))
    );
    assert_eq!(
        parts(div_opt(dec(4722366482869645213694, 20), dec(-19807040628566084398385987587, 12))),
        Some((-23841857910156, 28))
    );
    assert_eq!(
        parts(div_opt(dec(1048575, 23), dec(-3115530475, 20))),
        Some((-3365638720000002567781, 28))
    );
    assert_eq!(
        parts(div_opt(dec(-151115727451828646838272, 15), dec(-9903520314283042199192993789, 17))),
        Some((152587890625, 14))
    );
    assert_eq!(
        parts(div_opt(dec(-19999999999999999999, 12), dec(8589934592, 23))),
        Some((-23283064365386962889460846782, 8))
    );
    assert_eq!(
        parts(div_opt(dec(-901, 3), dec(1061709915597625174, 15))),
        Some((-8486310495582371210557602, 28))
    );
    assert_eq!(
        parts(div_opt(dec(-3, 28), dec(-34788874, 10))),
        Some((862, 28))
    );
    assert_eq!(
        parts(div_opt(dec(-70000000001, 7), dec(-59073847, 18))),
        Some((11849575329163851475594606188, 14))
    );
    assert_eq!(
        parts(div_opt(dec(100000001, 20), dec(870372057482, 4))),
        Some((114893395, 28))
    );
    assert_eq!(
        parts(div_opt(dec(4999999999999999999999999, 20), dec(263593762185736693784107, 20))),
        Some((18968582407032979095864625489, 27))
    );
    assert_eq!(
        parts(div_opt(dec(201138299320, 8), dec(73786976294838206467, 9))),
        Some((272593226365979574, 25))
    );
    assert_eq!(
        parts(div_opt(dec(-514263947509231556440155, 17), dec(-15345871245, 3))),
        Some((3351155104189925427985402076, 28))
    );
    assert_eq!(
        parts(div_opt(dec(3136, 24), dec(-79228162514264337593543950334, 0))),
        Some((0, 0))
    );
}

#[test]
fn shares_in_percent() {
    let percent = |part: u64, whole: u64| parts(Some(Rate { part, whole }.percent())).unwrap();
    assert_eq!(percent(1, 4), (25, 0));
    assert_eq!(percent(0, 7), (0, 0));
    assert_eq!(percent(5, 0), (0, 0));
    assert_eq!(percent(1, 3), (33_333_333_333_333_333_333_333_333_333, 27));
    assert_eq!(percent(2, 3), (66_666_666_666_666_666_666_666_666_667, 27));
    assert_eq!(percent(u64::MAX, 1), (1_844_674_407_370_955_161_500, 0));
}
