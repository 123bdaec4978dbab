use itertools::Itertools;
use twenty_first::shared_math::b_field_element::BFieldElement;
use twenty_first::shared_math::rescue_prime_regular::RescuePrimeRegular;

#[test]
fn test_compliance() {
    // hash 10, first batch
    let targets_first_batch: [[u64; 5]; 10] = [
        [
            3711666231709755894,
            17384520371490492612,
            12519181950482751223,
            8881538813396339421,
            11721401967599973822,
        ],
        [
            3925419690564839133,
            5931190319485970901,
            10741999842343541948,
            4379361927708357429,
            624425822377240257,
        ],
        [
            5331222247009081977,
            9629957264924751254,
            5472011874756883892,
            14344107133748284933,
            14970576837907603547,
        ],
        [
            14272762628928522800,
            15123724254351143775,
            4189549910834528442,
            18211802542628133906,
            10378470030067250620,
        ],
        [
            9028505522423420051,
            4548947560070025805,
            365873200364364602,
            13396630679584734738,
            2902158397921607703,
        ],
        [
            2728682124193801200,
            5029580824698741384,
            10966522651132571069,
            17005072713855867631,
            13173883832108679094,
        ],
        [
            9034061418505774715,
            10437510895109481550,
            9148840397973008160,
            13830213613005541037,
            7975937385060295448,
        ],
        [
            179231839474090644,
            11485838938749715951,
            11407963643270877283,
            2525018771010700841,
            6003326942652031452,
        ],
        [
            8886510033299586384,
            16641376996742108698,
            14336686901719852709,
            6393684032912544087,
            10756510615894243169,
        ],
        [
            3984287137806488239,
            12491581399256955922,
            17075276231967322881,
            14463990650613004419,
            1480614519044393603,
        ],
    ];
    let mut targets_bfe: Vec<Vec<BFieldElement>> = targets_first_batch
        .iter()
        .map(|l| l.iter().map(|e| BFieldElement::new(*e)).collect_vec())
        .collect_vec();
    let mut input = [BFieldElement::ring_zero(); 10];
    for i in 0..10 {
        input[input.len() - 1] = BFieldElement::new(i as u64);
        assert_eq!(targets_bfe[i], RescuePrimeRegular::hash_10(input).to_vec());
    }

    // hash 10, second batch
    let targets_second_batch: [[u64; 5]; 10] = [
        [
            9954340196098770044,
            16766478858550921719,
            14795358262939961687,
            5971715312175262159,
            10621735453321362721,
        ],
        [
            12391337510008436236,
            15657559504547420941,
            9377428313701566093,
            6455690240973939776,
            17925569643122616714,
        ],
        [
            14174674396431091177,
            10419196049487033389,
            13966773987063948344,
            483969843169798562,
            3639530542734092584,
        ],
        [
            14166842618688128156,
            17168550802342907985,
            3721514828700812032,
            4755976588553173055,
            5040960317306343383,
        ],
        [
            6393788816962046948,
            7027503643088443403,
            1123213526028638111,
            2111884675417454493,
            6407675412275457708,
        ],
        [
            7881221386634165564,
            17805016662820222439,
            12929479976497464999,
            7122243629396859500,
            2136259294370865427,
        ],
        [
            2759425216273856214,
            5365163625581141111,
            5562349150005538806,
            2022465106184614757,
            14545944666541784105,
        ],
        [
            4197295740525818,
            3710188887179138501,
            2520368773656332449,
            7135604343463999533,
            12275919319873645417,
        ],
        [
            5163999481497719848,
            14208882111473173488,
            6905551447652867406,
            5506325960735952984,
            13454019500172070006,
        ],
        [
            3925419690564839133,
            5931190319485970901,
            10741999842343541948,
            4379361927708357429,
            624425822377240257,
        ],
    ];
    targets_bfe = targets_second_batch
        .iter()
        .map(|l| l.iter().map(|e| BFieldElement::new(*e)).collect_vec())
        .collect_vec();
    input[input.len() - 1] = BFieldElement::ring_zero();
    for i in 0..10 {
        input[i] = BFieldElement::ring_one();
        assert_eq!(targets_bfe[i], RescuePrimeRegular::hash_10(input).to_vec());
        input[i] = BFieldElement::ring_zero();
    }

    // hash varlen, third batch
    let targets_third_batch: [[u64; 5]; 20] = [
        [
            9954340196098770044,
            16766478858550921719,
            14795358262939961687,
            5971715312175262159,
            10621735453321362721,
        ],
        [
            12391337510008436236,
            15657559504547420941,
            9377428313701566093,
            6455690240973939776,
            17925569643122616714,
        ],
        [
            14112140563534526715,
            12091338198119135732,
            16277751626976027823,
            4331384491863420413,
            15800084865512048249,
        ],
        [
            15410161320350300674,
            12862508375582878113,
            1871289024748006724,
            1120358582983879653,
            10608258519034552134,
        ],
        [
            1107344292722494872,
            17391364595468230070,
            4218215235563531160,
            7497689442794338714,
            3900922406630849053,
        ],
        [
            16822019589580184555,
            7989891526544888053,
            14569641731101827620,
            17919386380356552805,
            7463713352054333042,
        ],
        [
            674513153759557192,
            5885835165060751739,
            7545202825089012468,
            7455443267898983077,
            11460188487338022037,
        ],
        [
            1452905481212349824,
            4602871015292638258,
            16799505315703203495,
            15502476305285227202,
            14418240163510509007,
        ],
        [
            2169799351531593851,
            141901148303731658,
            12571509576917037512,
            2730951366471393395,
            10868840823954592153,
        ],
        [
            5004294054773159410,
            15035327361975356310,
            14190623520133446702,
            16843665251688123638,
            4543333205754908370,
        ],
        [
            16497508931324347828,
            10379016827033660777,
            5027352471010305075,
            15362732119758725484,
            13390969807239861733,
        ],
        [
            1743559568736995800,
            11815709956493259346,
            5763576938286686837,
            7541138447063081288,
            17969015713376415699,
        ],
        [
            10441678943133242957,
            15290592304889070108,
            18288160234755515065,
            3671382450876247307,
            3447450231474938402,
        ],
        [
            11057569330409963321,
            4984952761946312859,
            16529019269578375042,
            1908152979369527531,
            7121827819059879337,
        ],
        [
            17067972955397432517,
            2912062349216497629,
            15263972887304976204,
            9246522127607732383,
            17610927156233305697,
        ],
        [
            5980270367087450085,
            2990338491388854267,
            3198993023459349000,
            5035257001959372883,
            5260797048498744804,
        ],
        [
            8542899768037601505,
            5239516840302652488,
            2299137376555803866,
            952010414036958775,
            9717098700918296507,
        ],
        [
            8231024478155080292,
            9594681520895674398,
            191017068357133911,
            1512051294906340420,
            12055973608766483576,
        ],
        [
            16653142742451850722,
            9252945525340562222,
            4805241920959388929,
            937662086458078174,
            17775208482321191727,
        ],
        [
            14634923894397095166,
            1247948061415695017,
            3048493836613607105,
            2432649783604354905,
            7424726151688166928,
        ],
    ];
    targets_bfe = targets_third_batch
        .iter()
        .map(|l| l.iter().map(|e| BFieldElement::new(*e)).collect_vec())
        .collect_vec();
    for i in 0..20 {
        let var_input = (0..i).map(|e| BFieldElement::new(e as u64)).collect_vec();
        assert_eq!(
            RescuePrimeRegular::hash_varlen(&var_input).to_vec(),
            targets_bfe[i]
        );
    }
}
